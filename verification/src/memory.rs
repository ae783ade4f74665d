//! Spark memory sizes: `512m`, `2g`, `1024kb`.

use vstd::arithmetic::power::pow;
use vstd::prelude::*;
use vstd::slice::slice_subrange;
use vstd::string::*;

use crate::error::{outcome, Error};
use crate::json::{no_members, number_view, put, Json, JsonView};
use crate::text::{
    all_digits, chars_of, count_digits, dec, dec_text, digit_run, digits_u64, digits_value,
    is_digit, is_space, law_trim_ignores_space, lemma_digit_run, lemma_digit_run_is, lower,
    lower_text, same_text, string_of, trim, trim_chars, trim_end, trim_start,
};

verus! {

pub const KIB: u64 = 1024;

pub const MIB: u64 = 1_048_576;

pub const GIB: u64 = 1_073_741_824;

pub const TIB: u64 = 1_099_511_627_776;

pub const PIB: u64 = 1_125_899_906_842_624;

// ---------------------------------------------------------------------------
// Reading a size
// ---------------------------------------------------------------------------

/// The bytes that a suffix in lower case stands for. Every suffix is binary: `k`,
/// `kb`, `ki` and `kib` all mean 1024 bytes. No suffix means bytes.
pub open spec fn unit_bytes(suffix: Seq<char>) -> Option<u64> {
    if suffix == ""@ || suffix == "b"@ {
        Some(1)
    } else if suffix == "k"@ || suffix == "kb"@ || suffix == "ki"@ || suffix == "kib"@ {
        Some(KIB)
    } else if suffix == "m"@ || suffix == "mb"@ || suffix == "mi"@ || suffix == "mib"@ {
        Some(MIB)
    } else if suffix == "g"@ || suffix == "gb"@ || suffix == "gi"@ || suffix == "gib"@ {
        Some(GIB)
    } else if suffix == "t"@ || suffix == "tb"@ || suffix == "ti"@ || suffix == "tib"@ {
        Some(TIB)
    } else if suffix == "p"@ || suffix == "pb"@ || suffix == "pi"@ || suffix == "pib"@ {
        Some(PIB)
    } else {
        None
    }
}

/// A size that was read: the number, the suffix in lower case and the bytes.
pub struct Size {
    pub value: u64,
    pub suffix: String,
    pub bytes: u64,
}

/// A size as the model has it.
pub struct SizeView {
    pub value: nat,
    pub suffix: Seq<char>,
    pub bytes: nat,
}

impl View for Size {
    type V = SizeView;

    open spec fn view(&self) -> SizeView {
        SizeView { value: self.value as nat, suffix: self.suffix@, bytes: self.bytes as nat }
    }
}

/// The size that a text stands for, without regard to the white space around it:
/// digits and a suffix in either case. A text is refused where it has no digits,
/// where the number or the bytes do not fit in 64 bits, and where the suffix is
/// none that Spark knows.
pub open spec fn size_of(raw: Seq<char>) -> Result<SizeView, Seq<char>> {
    let s = trim(raw);
    let n = digit_run(s) as int;
    let value = digits_value(s.take(n));
    let suffix = lower(s.skip(n));
    if n == 0 {
        Err("Spark size `"@ + s + "` has no numeric value"@)
    } else if value > u64::MAX {
        Err("number too large to fit in target type"@)
    } else {
        match unit_bytes(suffix) {
            None => Err("unknown Spark size suffix `"@ + suffix + "`"@),
            Some(unit) => if value * unit > u64::MAX {
                Err("size overflows u64 bytes: `"@ + s + "`"@)
            } else {
                Ok(SizeView { value, suffix, bytes: (value * unit) as nat })
            },
        }
    }
}

/// The bytes that a suffix in lower case stands for.
pub fn suffix_bytes(suffix: &str) -> (r: Option<u64>)
    ensures
        r == unit_bytes(suffix@),
{
    if same_text(suffix, "") || same_text(suffix, "b") {
        Some(1)
    } else if same_text(suffix, "k") || same_text(suffix, "kb") || same_text(suffix, "ki")
        || same_text(suffix, "kib") {
        Some(KIB)
    } else if same_text(suffix, "m") || same_text(suffix, "mb") || same_text(suffix, "mi")
        || same_text(suffix, "mib") {
        Some(MIB)
    } else if same_text(suffix, "g") || same_text(suffix, "gb") || same_text(suffix, "gi")
        || same_text(suffix, "gib") {
        Some(GIB)
    } else if same_text(suffix, "t") || same_text(suffix, "tb") || same_text(suffix, "ti")
        || same_text(suffix, "tib") {
        Some(TIB)
    } else if same_text(suffix, "p") || same_text(suffix, "pb") || same_text(suffix, "pi")
        || same_text(suffix, "pib") {
        Some(PIB)
    } else {
        None
    }
}

/// Reads a size.
pub fn read_size(raw: &str) -> (r: Result<Size, Error>)
    ensures
        match r {
            Ok(z) => size_of(raw@) == Ok::<SizeView, Seq<char>>(z@),
            Err(e) => size_of(raw@) == Err::<SizeView, Seq<char>>(e@),
        },
{
    let all = chars_of(raw);
    let s = trim_chars(all.as_slice());
    let n: usize = count_digits(s);
    proof {
        lemma_digit_run(s@);
    }
    if n == 0 {
        let shown = string_of(s);
        return Err(Error::around("Spark size `", shown.as_str(), "` has no numeric value"));
    }
    let num = slice_subrange(s, 0, n);
    let rest = slice_subrange(s, n, s.len());
    proof {
        assert(num@ =~= s@.take(n as int));
        assert(rest@ =~= s@.skip(n as int));
    }
    let value: u64 = match digits_u64(num) {
        Some(v) => v,
        None => {
            return Err(Error::new("number too large to fit in target type"));
        },
    };
    let suffix = lower_text(rest);
    let unit: u64 = match suffix_bytes(suffix.as_str()) {
        Some(u) => u,
        None => {
            return Err(Error::around("unknown Spark size suffix `", suffix.as_str(), "`"));
        },
    };
    match value.checked_mul(unit) {
        Some(bytes) => Ok(Size { value, suffix, bytes }),
        None => {
            let shown = string_of(s);
            Err(Error::around("size overflows u64 bytes: `", shown.as_str(), "`"))
        },
    }
}

/// The size that options name under `memory`, or else under `size`.
pub open spec fn named_size(opts: JsonView) -> Result<SizeView, Seq<char>> {
    match opts.str_at_either("memory"@, "size"@) {
        None => Err("missing memory"@),
        Some(raw) => size_of(raw),
    }
}

/// A size as JSON: `{value, suffix, bytes, mib}`. The mebibytes are a floating-point
/// number, which the caller works out.
pub open spec fn size_json(z: SizeView, mib: serde_json::Number) -> JsonView {
    JsonView::Object(
        map![
            "value"@ => JsonView::Int(z.value as int),
            "suffix"@ => JsonView::Str(z.suffix),
            "bytes"@ => JsonView::Int(z.bytes as int),
            "mib"@ => number_view(mib),
        ],
    )
}

/// Parses a Spark memory or size setting (`512m`, `2g`, `1024kb`) into bytes.
/// Spark treats every suffix as binary and in either case; no suffix means bytes.
/// opts: `memory`, or else `size`. Refuses an unknown suffix and a size that does not
/// fit in 64 bits. The answer for the caller is `Size::to_json`, once the mebibytes have
/// been worked out from the bytes.
pub fn op_parse_memory(opts: Json) -> (r: Result<Size, Error>)
    ensures
        match r {
            Ok(z) => named_size(opts@) == Ok::<SizeView, Seq<char>>(z@),
            Err(e) => named_size(opts@) == Err::<SizeView, Seq<char>>(e@),
        },
{
    match opts.str_at_either("memory", "size") {
        Some(raw) => read_size(raw),
        None => Err(Error::new("missing memory")),
    }
}

impl Size {
    /// The answer that a caller gets for a size: `{value, suffix, bytes, mib}`.
    pub fn to_json(self, mib: serde_json::Number) -> (r: Json)
        ensures
            r@ == size_json(self@, mib),
    {
        let mut m = no_members();
        put(&mut m, "value", Json::uint(self.value));
        put(&mut m, "suffix", Json::Str(self.suffix));
        put(&mut m, "bytes", Json::uint(self.bytes));
        put(&mut m, "mib", Json::Number(mib));
        Json::Object(m)
    }
}

// ---------------------------------------------------------------------------
// Writing a size
// ---------------------------------------------------------------------------

/// A unit: its bytes and its suffix.
pub struct Unit {
    pub bytes: u64,
    pub suffix: Seq<char>,
}

/// The unit that a byte count is written in: the largest one that divides it
/// evenly, and bytes for zero.
pub open spec fn written_unit(bytes: u64) -> Unit {
    if bytes == 0 {
        Unit { bytes: 1, suffix: "b"@ }
    } else if bytes % PIB == 0 {
        Unit { bytes: PIB, suffix: "p"@ }
    } else if bytes % TIB == 0 {
        Unit { bytes: TIB, suffix: "t"@ }
    } else if bytes % GIB == 0 {
        Unit { bytes: GIB, suffix: "g"@ }
    } else if bytes % MIB == 0 {
        Unit { bytes: MIB, suffix: "m"@ }
    } else if bytes % KIB == 0 {
        Unit { bytes: KIB, suffix: "k"@ }
    } else {
        Unit { bytes: 1, suffix: "b"@ }
    }
}

/// How many of its units a byte count is written as.
pub open spec fn written_value(bytes: u64) -> nat {
    (bytes / written_unit(bytes).bytes) as nat
}

/// The text that a byte count is written as.
pub open spec fn size_text(bytes: u64) -> Seq<char> {
    dec(written_value(bytes)) + written_unit(bytes).suffix
}

/// What `op_build_memory` answers.
pub open spec fn built_memory(opts: JsonView) -> Result<JsonView, Seq<char>> {
    match opts.u64_at("bytes"@) {
        None => Err("missing bytes"@),
        Some(n) => Ok(
            JsonView::Object(
                map![
                    "value"@ => JsonView::Int(written_value(n as u64) as int),
                    "suffix"@ => JsonView::Str(written_unit(n as u64).suffix),
                    "string"@ => JsonView::Str(size_text(n as u64)),
                    "bytes"@ => JsonView::Int(n),
                ],
            ),
        ),
    }
}

/// Encodes a byte count as a Spark size string, the inverse of `op_parse_memory`:
/// the largest binary unit that divides the count evenly, with the short suffix in
/// lower case; zero gives `0b`. opts: `bytes`. Answers
/// `{value, suffix, string, bytes}`.
pub fn op_build_memory(opts: Json) -> (r: Result<Json, Error>)
    ensures
        outcome(r) == built_memory(opts@),
{
    let bytes: u64 = match opts.u64_at("bytes") {
        Some(n) => n,
        None => {
            return Err(Error::new("missing bytes"));
        },
    };
    let (unit, suffix): (u64, &str) = if bytes == 0 {
        (1, "b")
    } else if bytes % PIB == 0 {
        (PIB, "p")
    } else if bytes % TIB == 0 {
        (TIB, "t")
    } else if bytes % GIB == 0 {
        (GIB, "g")
    } else if bytes % MIB == 0 {
        (MIB, "m")
    } else if bytes % KIB == 0 {
        (KIB, "k")
    } else {
        (1, "b")
    };
    let value: u64 = bytes / unit;
    let mut string: String = dec_text(value);
    string.append(suffix);
    let mut m = no_members();
    put(&mut m, "value", Json::uint(value));
    put(&mut m, "suffix", Json::text(suffix));
    put(&mut m, "string", Json::Str(string));
    put(&mut m, "bytes", Json::uint(bytes));
    Ok(Json::Object(m))
}

// ---------------------------------------------------------------------------
// Laws
// ---------------------------------------------------------------------------

/// The unit that a byte count is written in divides it evenly, and no larger unit
/// does; zero is written in bytes.
pub proof fn law_largest_unit(bytes: u64)
    ensures
        bytes == 0 ==> written_unit(bytes).bytes == 1,
        bytes % written_unit(bytes).bytes == 0,
        written_value(bytes) * written_unit(bytes).bytes == bytes,
        forall|s: Seq<char>|
            bytes > 0 && (#[trigger] unit_bytes(s)) is Some && bytes % unit_bytes(s)->0 == 0
                ==> unit_bytes(s)->0 <= written_unit(bytes).bytes,
{
    let u = written_unit(bytes).bytes;
    vstd::arithmetic::div_mod::lemma_fundamental_div_mod(bytes as int, u as int);
    assert(u * (bytes / u) == (bytes / u) * u) by (nonlinear_arith);
}

/// A text that starts with a digit and ends with a letter has no white space
/// around it.
proof fn lemma_trim_plain(s: Seq<char>)
    requires
        s.len() > 0,
        !crate::text::is_space(s[0]),
        !crate::text::is_space(s.last()),
    ensures
        trim(s) == s,
{
}

/// Reading a byte count that was written gives the byte count back, together with
/// the number and the suffix that were written.
pub proof fn law_read_inverts_write(bytes: u64)
    ensures
        size_of(size_text(bytes)) == Ok::<SizeView, Seq<char>>(
            SizeView {
                value: written_value(bytes),
                suffix: written_unit(bytes).suffix,
                bytes: bytes as nat,
            },
        ),
{
    reveal_strlit("");
    reveal_strlit("b");
    reveal_strlit("k");
    reveal_strlit("m");
    reveal_strlit("g");
    reveal_strlit("t");
    reveal_strlit("p");
    reveal_strlit("kb");
    reveal_strlit("ki");
    reveal_strlit("kib");
    reveal_strlit("mb");
    reveal_strlit("mi");
    reveal_strlit("mib");
    reveal_strlit("gb");
    reveal_strlit("gi");
    reveal_strlit("gib");
    reveal_strlit("tb");
    reveal_strlit("ti");
    reveal_strlit("tib");
    reveal_strlit("pb");
    reveal_strlit("pi");
    reveal_strlit("pib");
    law_largest_unit(bytes);
    let v = written_value(bytes);
    let u = written_unit(bytes);
    let s = size_text(bytes);
    crate::text::lemma_dec(v);
    let n = dec(v).len() as int;
    assert(u.suffix.len() == 1);
    assert(s.take(n) =~= dec(v));
    assert(s.skip(n) =~= u.suffix);
    assert(s[0] == dec(v)[0]);
    assert(crate::text::is_digit(dec(v)[0]));
    assert(s.last() == u.suffix[0]);
    lemma_trim_plain(s);
    assert(s[n] == u.suffix[0]);
    lemma_digit_run_is(s, n);
    assert(lower(u.suffix) =~= u.suffix);
    assert(unit_bytes(u.suffix) == Some(u.bytes));
}

/// Parsing the string that was built for a byte count gives that count, and the number
/// and the suffix that were built.
pub proof fn law_parse_inverts_build(opts: JsonView)
    requires
        opts.u64_at("bytes"@) is Some,
    ensures
        built_memory(opts) matches Ok(built) && {
            let again = JsonView::Object(map!["memory"@ => built.get("string"@)->0]);
            &&& named_size(again) matches Ok(z)
            &&& opts.u64_at("bytes"@) == Some(z.bytes as int)
            &&& built.u64_at("bytes"@) == Some(z.bytes as int)
            &&& built.u64_at("value"@) == Some(z.value as int)
            &&& built.str_at("suffix"@) == Some(z.suffix)
        },
{
    reveal_strlit("value");
    reveal_strlit("suffix");
    reveal_strlit("string");
    reveal_strlit("bytes");
    assert("value"@[0] == 'v');
    assert("suffix"@[0] == 's');
    assert("suffix"@[1] == 'u');
    assert("string"@[0] == 's');
    assert("string"@[1] == 't');
    assert("bytes"@[0] == 'b');
    let n = opts.u64_at("bytes"@)->0;
    law_read_inverts_write(n as u64);
}

/// White space at the start is the same in either case.
proof fn lemma_trim_start_lower(s: Seq<char>)
    ensures
        trim_start(lower(s)) == lower(trim_start(s)),
    decreases s.len(),
{
    if s.len() > 0 && is_space(s[0]) {
        lemma_trim_start_lower(s.skip(1));
        assert(lower(s).skip(1) =~= lower(s.skip(1)));
    }
}

/// White space at the end is the same in either case.
proof fn lemma_trim_end_lower(s: Seq<char>)
    ensures
        trim_end(lower(s)) == lower(trim_end(s)),
    decreases s.len(),
{
    if s.len() > 0 && is_space(s.last()) {
        lemma_trim_end_lower(s.drop_last());
        assert(lower(s).drop_last() =~= lower(s.drop_last()));
    }
}

/// The digits at the start are the same in either case.
proof fn lemma_digits_lower(s: Seq<char>)
    ensures
        digit_run(lower(s)) == digit_run(s),
        lower(s).take(digit_run(s) as int) == s.take(digit_run(s) as int),
    decreases s.len(),
{
    let n = digit_run(s) as int;
    lemma_digit_run(s);
    assert forall|i: int| 0 <= i < n implies lower(s)[i] == s[i] by {
        assert(is_digit(s.take(n)[i]));
    }
    assert(lower(s).take(n) =~= s.take(n));
    lemma_digit_run_is(lower(s), n);
}

/// Sizes are read without regard to case: texts that differ only in the case of
/// their letters are both refused, or both read as the same size.
pub proof fn law_either_case(a: Seq<char>, b: Seq<char>)
    requires
        lower(a) == lower(b),
    ensures
        size_of(a) is Ok <==> size_of(b) is Ok,
        size_of(a) is Ok ==> size_of(a) == size_of(b),
{
    lemma_trim_start_lower(a);
    lemma_trim_start_lower(b);
    lemma_trim_end_lower(trim_start(a));
    lemma_trim_end_lower(trim_start(b));
    let s = trim(a);
    let t = trim(b);
    assert(lower(s) == lower(t));
    lemma_digits_lower(s);
    lemma_digits_lower(t);
    lemma_digit_run(s);
    lemma_digit_run(t);
    let n = digit_run(s) as int;
    assert(lower(s.skip(n)) =~= lower(s).skip(n));
    assert(lower(t.skip(n)) =~= lower(t).skip(n));
}

/// Whether a text in lower case is one of the spellings of the unit of 1024 to the power
/// of `k`: its letter out of b, k, m, g, t and p, alone or, but for bytes, before `b`, `i`
/// or `ib`. Bytes are also what no suffix means.
pub open spec fn spells(suffix: Seq<char>, k: nat) -> bool {
    let letters = seq!['b', 'k', 'm', 'g', 't', 'p'];
    ||| k == 0 && suffix.len() == 0
    ||| k < 6 && suffix == seq![letters[k as int]]
    ||| 0 < k < 6 && suffix == seq![letters[k as int], 'b']
    ||| 0 < k < 6 && suffix == seq![letters[k as int], 'i']
    ||| 0 < k < 6 && suffix == seq![letters[k as int], 'i', 'b']
}

/// The powers of 1024 up to the largest unit.
proof fn lemma_powers()
    ensures
        pow(1024, 0) == 1,
        pow(1024, 1) == 1024,
        pow(1024, 2) == 1_048_576,
        pow(1024, 3) == 1_073_741_824,
        pow(1024, 4) == 1_099_511_627_776,
        pow(1024, 5) == 1_125_899_906_842_624,
{
    reveal_with_fuel(pow, 6);
}

/// A suffix is known exactly where it spells a unit, and stands for the bytes of that
/// unit.
proof fn lemma_units(suffix: Seq<char>)
    ensures
        forall|k: nat| #[trigger] spells(suffix, k) ==> unit_bytes(suffix) is Some && unit_bytes(
            suffix,
        )->0 == pow(1024, k),
        unit_bytes(suffix) is Some ==> exists|k: nat| #[trigger] spells(suffix, k),
{
    lemma_powers();
    lemma_suffixes();
    let s = suffix;
    assert forall|k: nat| #[trigger] spells(s, k) implies unit_bytes(s) is Some && unit_bytes(
        s,
    )->0 == pow(1024, k) by {
        assert(k == 0 || k == 1 || k == 2 || k == 3 || k == 4 || k == 5);
        if s.len() == 0 {
            assert(s =~= ""@);
        } else if s.len() == 1 {
            assert(s =~= seq![s[0]]);
        }
    }
    if unit_bytes(s) is Some {
        let u = unit_bytes(s)->0;
        if s.len() == 0 {
            assert(spells(s, 0));
        } else if s[0] == 'b' {
            assert(spells(s, 0));
        } else if s[0] == 'k' {
            assert(spells(s, 1));
        } else if s[0] == 'm' {
            assert(spells(s, 2));
        } else if s[0] == 'g' {
            assert(spells(s, 3));
        } else if s[0] == 't' {
            assert(spells(s, 4));
        } else {
            assert(spells(s, 5));
        }
    }
}

/// What the literal suffixes hold.
proof fn lemma_suffixes()
    ensures
        ""@.len() == 0,
        "b"@ == seq!['b'],
        "k"@ == seq!['k'],
        "kb"@ == seq!['k', 'b'],
        "ki"@ == seq!['k', 'i'],
        "kib"@ == seq!['k', 'i', 'b'],
        "m"@ == seq!['m'],
        "mb"@ == seq!['m', 'b'],
        "mi"@ == seq!['m', 'i'],
        "mib"@ == seq!['m', 'i', 'b'],
        "g"@ == seq!['g'],
        "gb"@ == seq!['g', 'b'],
        "gi"@ == seq!['g', 'i'],
        "gib"@ == seq!['g', 'i', 'b'],
        "t"@ == seq!['t'],
        "tb"@ == seq!['t', 'b'],
        "ti"@ == seq!['t', 'i'],
        "tib"@ == seq!['t', 'i', 'b'],
        "p"@ == seq!['p'],
        "pb"@ == seq!['p', 'b'],
        "pi"@ == seq!['p', 'i'],
        "pib"@ == seq!['p', 'i', 'b'],
{
    reveal_strlit("");
    reveal_strlit("b");
    reveal_strlit("k");
    reveal_strlit("kb");
    reveal_strlit("ki");
    reveal_strlit("kib");
    reveal_strlit("m");
    reveal_strlit("mb");
    reveal_strlit("mi");
    reveal_strlit("mib");
    reveal_strlit("g");
    reveal_strlit("gb");
    reveal_strlit("gi");
    reveal_strlit("gib");
    reveal_strlit("t");
    reveal_strlit("tb");
    reveal_strlit("ti");
    reveal_strlit("tib");
    reveal_strlit("p");
    reveal_strlit("pb");
    reveal_strlit("pi");
    reveal_strlit("pib");
}

/// A size is its number times the power of 1024 that its suffix spells, in every spelling
/// and in either case; and digits with a suffix behind them are refused exactly where the
/// suffix spells no unit or the bytes do not fit in 64 bits.
pub proof fn law_every_suffix_is_binary(digits: Seq<char>, suffix: Seq<char>)
    requires
        digits.len() > 0,
        all_digits(digits),
        suffix.len() > 0 ==> !is_digit(suffix[0]) && !is_space(suffix.last()),
    ensures
        forall|k: nat| #[trigger]
            spells(lower(suffix), k) ==> size_of(digits + suffix) is Ok == (digits_value(digits)
                * pow(1024, k) <= u64::MAX),
        forall|k: nat| #[trigger]
            spells(lower(suffix), k) && size_of(digits + suffix) is Ok ==> size_of(digits + suffix)
                == Ok::<SizeView, Seq<char>>(
                SizeView {
                    value: digits_value(digits),
                    suffix: lower(suffix),
                    bytes: (digits_value(digits) * pow(1024, k)) as nat,
                },
            ),
        (forall|k: nat| !(#[trigger] spells(lower(suffix), k))) ==> size_of(digits + suffix) is Err,
{
    let s = digits + suffix;
    let n = digits.len() as int;
    assert(is_digit(digits[0]));
    assert(s[0] == digits[0]);
    assert(!is_space(s.last())) by {
        if suffix.len() == 0 {
            assert(is_digit(digits[n - 1]));
            assert(s.last() == digits[n - 1]);
        } else {
            assert(s.last() == suffix.last());
        }
    }
    lemma_trim_plain(s);
    assert(s.take(n) =~= digits);
    assert(s.skip(n) =~= suffix);
    if suffix.len() > 0 {
        assert(s[n] == suffix[0]);
    }
    lemma_digit_run_is(s, n);
    lemma_units(lower(suffix));
    let v = digits_value(digits);
    assert forall|k: nat| #[trigger] spells(lower(suffix), k) implies size_of(s) is Ok == (v * pow(
        1024,
        k,
    ) <= u64::MAX) && (size_of(s) is Ok ==> size_of(s) == Ok::<SizeView, Seq<char>>(
        SizeView { value: v, suffix: lower(suffix), bytes: (v * pow(1024, k)) as nat },
    )) by {
        let u = unit_bytes(lower(suffix))->0;
        assert(u == pow(1024, k));
        assert(u >= 1) by {
            lemma_powers();
            assert(k == 0 || k == 1 || k == 2 || k == 3 || k == 4 || k == 5);
        }
        assert(v * u >= v) by (nonlinear_arith)
            requires
                u >= 1,
                v >= 0,
        ;
        assert(v * u == v * pow(1024, k));
    }
}

/// What is read of a size is what stands in it: behind white space come digits, which
/// stand for the value, and what is behind them is the suffix. A size is its value times
/// a power of 1024, and a text that does not start with a digit is none.
pub proof fn law_size_is_read_from_its_text(raw: Seq<char>) -> (r: (int, nat))
    ensures
        size_of(raw) matches Ok(z) ==> {
            let s = trim(raw);
            &&& 0 < r.0 <= s.len()
            &&& all_digits(s.take(r.0))
            &&& r.0 < s.len() ==> !is_digit(s[r.0])
            &&& z.value == digits_value(s.take(r.0))
            &&& z.suffix == lower(s.skip(r.0))
            &&& spells(z.suffix, r.1)
            &&& z.bytes == z.value * pow(1024, r.1)
            &&& z.bytes <= u64::MAX
        },
        trim(raw).len() == 0 || !is_digit(trim(raw)[0]) ==> size_of(raw) is Err,
{
    let s = trim(raw);
    let n = digit_run(s) as int;
    lemma_digit_run(s);
    lemma_units(lower(s.skip(n)));
    if size_of(raw) is Ok {
        let suffix = lower(s.skip(n));
        let k = choose|k: nat| #[trigger] spells(suffix, k);
        assert(unit_bytes(suffix)->0 == pow(1024, k));
        (n, k)
    } else {
        (n, 0)
    }
}

/// White space around a size does not matter.
pub proof fn law_size_ignores_space(a: Seq<char>, s: Seq<char>, b: Seq<char>)
    requires
        forall|i: int| 0 <= i < a.len() ==> is_space(#[trigger] a[i]),
        forall|i: int| 0 <= i < b.len() ==> is_space(#[trigger] b[i]),
    ensures
        size_of(a + s + b) == size_of(s),
{
    law_trim_ignores_space(a, s, b);
}

/// A size is read from `memory`, and from `size` where there is no `memory`; it is refused
/// where neither holds a text.
pub proof fn law_size_is_named_by_options(opts: JsonView)
    ensures
        opts.get("memory"@) matches Some(JsonView::Str(s)) ==> named_size(opts) == size_of(s),
        opts.get("memory"@) is None ==> (opts.get("size"@) matches Some(JsonView::Str(s))
            ==> named_size(opts) == size_of(s)),
        opts.get("memory"@) matches Some(v) ==> (!(v is Str) ==> named_size(opts) is Err),
        opts.get("memory"@) is None && opts.get("size"@) is None ==> named_size(opts) is Err,
{
}

/// What a caller is answered for a size: its value, its suffix, its bytes and its
/// mebibytes, and nothing else.
pub proof fn law_size_answer(z: SizeView, mib: serde_json::Number, key: Seq<char>)
    ensures
        size_json(z, mib).get("value"@) == Some(JsonView::Int(z.value as int)),
        size_json(z, mib).get("suffix"@) == Some(JsonView::Str(z.suffix)),
        size_json(z, mib).get("bytes"@) == Some(JsonView::Int(z.bytes as int)),
        size_json(z, mib).get("mib"@) == Some(number_view(mib)),
        size_json(z, mib).get(key) is Some ==> key == "value"@ || key == "suffix"@ || key
            == "bytes"@ || key == "mib"@,
{
    reveal_strlit("value");
    reveal_strlit("suffix");
    reveal_strlit("bytes");
    reveal_strlit("mib");
    assert("value"@.len() == 5 && "bytes"@.len() == 5 && "suffix"@.len() == 6 && "mib"@.len()
        == 3);
    assert("value"@[0] == 'v' && "bytes"@[0] == 'b');
}

/// What a byte count is written as: the value times the power of 1024 of the unit gives
/// the count, the suffix is the letter of the unit, no greater unit divides the count
/// evenly, and the text is the value with the suffix behind it. Zero is `0b`. The answer
/// holds these four and nothing else, and is refused exactly where no count is given.
pub proof fn law_built_size(opts: JsonView, key: Seq<char>) -> (k: nat)
    ensures
        built_memory(opts) is Err <==> opts.u64_at("bytes"@) is None,
        built_memory(opts) matches Ok(built) ==> {
            let n = opts.u64_at("bytes"@)->0;
            let value = built.u64_at("value"@)->0;
            let suffix = built.str_at("suffix"@)->0;
            &&& k < 6
            &&& built.u64_at("value"@) is Some
            &&& n == value * pow(1024, k)
            &&& built.str_at("suffix"@) is Some
            &&& suffix.len() == 1
            &&& suffix[0] == seq!['b', 'k', 'm', 'g', 't', 'p'][k as int]
            &&& n > 0 ==> forall|j: nat| k < j < 6 ==> n % #[trigger] pow(1024, j) != 0
            &&& n == 0 ==> k == 0
            &&& built.str_at("string"@) == Some(dec(value as nat) + suffix)
            &&& built.u64_at("bytes"@) == Some(n)
            &&& built.get(key) is Some ==> key == "value"@ || key == "suffix"@ || key == "string"@
                || key == "bytes"@
        },
{
    reveal_strlit("value");
    reveal_strlit("suffix");
    reveal_strlit("string");
    reveal_strlit("bytes");
    assert("value"@.len() == 5 && "bytes"@.len() == 5 && "suffix"@.len() == 6 && "string"@.len()
        == 6);
    assert("value"@[0] == 'v' && "bytes"@[0] == 'b');
    assert("suffix"@[1] == 'u' && "string"@[1] == 't');
    lemma_powers();
    lemma_suffixes();
    if opts.u64_at("bytes"@) is Some {
        let n = opts.u64_at("bytes"@)->0 as u64;
        law_largest_unit(n);
        let u = written_unit(n);
        let k: nat = if u.suffix == "p"@ {
            5
        } else if u.suffix == "t"@ {
            4
        } else if u.suffix == "g"@ {
            3
        } else if u.suffix == "m"@ {
            2
        } else if u.suffix == "k"@ {
            1
        } else {
            0
        };
        assert("p"@[0] == 'p' && "t"@[0] == 't' && "g"@[0] == 'g' && "m"@[0] == 'm' && "k"@[0]
            == 'k' && "b"@[0] == 'b');
        assert(u.bytes == pow(1024, k));
        assert(n == written_value(n) * u.bytes);
        assert(written_value(n) <= n) by (nonlinear_arith)
            requires
                n == written_value(n) * u.bytes,
                u.bytes >= 1,
        ;
        assert forall|j: nat| n > 0 && k < j < 6 implies n as int % #[trigger] pow(1024, j)
            != 0 by {
            assert(j == 1 || j == 2 || j == 3 || j == 4 || j == 5);
        }
        k
    } else {
        0
    }
}

/// The operations on sizes give what they come to: a size that is read is its value, its
/// suffix and its bytes.
pub proof fn law_operations(opts: Json, z: Result<Size, Error>, r: Result<Json, Error>)
    ensures
        call_ensures(op_parse_memory, (opts,), z) ==> match (z, named_size(opts@)) {
            (Ok(a), Ok(b)) => a.value == b.value && a.suffix@ == b.suffix && a.bytes == b.bytes,
            (Err(a), Err(b)) => a@ == b,
            _ => false,
        },
        call_ensures(op_build_memory, (opts,), r) ==> outcome(r) == built_memory(opts@),
{
}

/// Why a size is refused, in words that show what stands in it: nothing is named, no digit
/// stands first, the number or the bytes do not fit in 64 bits, or the suffix is unknown.
pub proof fn law_refusals(opts: JsonView, raw: Seq<char>)
    ensures
        opts.get("memory"@) is None && opts.get("size"@) is None ==> named_size(opts) == Err::<
            SizeView,
            Seq<char>,
        >("missing memory"@),
        trim(raw).len() == 0 || !is_digit(trim(raw)[0]) ==> size_of(raw) == Err::<
            SizeView,
            Seq<char>,
        >("Spark size `"@ + trim(raw) + "` has no numeric value"@),
{
}

/// Digits with a suffix behind them are refused in words that show the suffix where it is
/// unknown, and the size where it does not fit.
pub proof fn law_suffix_refusals(digits: Seq<char>, suffix: Seq<char>)
    requires
        digits.len() > 0,
        all_digits(digits),
        suffix.len() > 0 ==> !is_digit(suffix[0]) && !is_space(suffix.last()),
    ensures
        size_of(digits + suffix) matches Err(e) ==> if digits_value(digits) > u64::MAX {
            e == "number too large to fit in target type"@
        } else if exists|k: nat| #[trigger] spells(lower(suffix), k) {
            e == "size overflows u64 bytes: `"@ + (digits + suffix) + "`"@
        } else {
            e == "unknown Spark size suffix `"@ + lower(suffix) + "`"@
        },
{
    let s = digits + suffix;
    let n = digits.len() as int;
    assert(is_digit(digits[0]));
    assert(s[0] == digits[0]);
    assert(!is_space(s.last())) by {
        if suffix.len() == 0 {
            assert(is_digit(digits[n - 1]));
            assert(s.last() == digits[n - 1]);
        } else {
            assert(s.last() == suffix.last());
        }
    }
    lemma_trim_plain(s);
    assert(s.take(n) =~= digits);
    assert(s.skip(n) =~= suffix);
    if suffix.len() > 0 {
        assert(s[n] == suffix[0]);
    }
    lemma_digit_run_is(s, n);
    lemma_units(lower(suffix));
}

} // verus!
