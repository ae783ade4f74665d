//! Text as a sequence of characters: decimal numbers, splitting, joining,
//! searching and trimming.

use vstd::arithmetic::power::{lemma_pow0, lemma_pow1, lemma_pow_adds, pow};
use vstd::prelude::*;
use vstd::slice::slice_subrange;
use vstd::string::*;

verus! {

// ---------------------------------------------------------------------------
// Characters and strings
// ---------------------------------------------------------------------------

/// `String::push` of std: appends the given character to the end of the string.
pub assume_specification[ String::push ](s: &mut String, c: char)
    ensures
        final(s)@ == old(s)@.push(c),
;

/// The characters of a string slice, in order.
pub fn chars_of(s: &str) -> (r: Vec<char>)
    ensures
        r@ == s@,
{
    let mut out: Vec<char> = Vec::new();
    for c in it: s.chars()
        invariant
            out@ == s@.take(it.index()),
            it.seq() == s@,
    {
        out.push(c);
    }
    out
}

/// The string that holds the given characters, in order.
pub fn string_of(chars: &[char]) -> (r: String)
    ensures
        r@ == chars@,
{
    let mut out: String = String::new();
    let mut i: usize = 0;
    while i < chars.len()
        invariant
            i <= chars@.len(),
            out@ == chars@.take(i as int),
        decreases chars@.len() - i,
    {
        out.push(chars[i]);
        proof {
            assert(chars@.take(i + 1) =~= chars@.take(i as int).push(chars@[i as int]));
        }
        i = i + 1;
    }
    proof {
        assert(chars@.take(i as int) =~= chars@);
    }
    out
}

/// Whether two character slices hold the same characters.
pub fn same_chars(a: &[char], b: &[char]) -> (r: bool)
    ensures
        r == (a@ == b@),
{
    if a.len() != b.len() {
        return false;
    }
    let mut i: usize = 0;
    while i < a.len()
        invariant
            i <= a@.len(),
            a@.len() == b@.len(),
            forall|k: int| 0 <= k < i ==> a@[k] == b@[k],
        decreases a@.len() - i,
    {
        if a[i] != b[i] {
            return false;
        }
        i = i + 1;
    }
    proof {
        assert(a@ =~= b@);
    }
    true
}

/// Whether two string slices hold the same text.
pub fn same_text(a: &str, b: &str) -> (r: bool)
    ensures
        r == (a@ == b@),
{
    let x = chars_of(a);
    let y = chars_of(b);
    same_chars(x.as_slice(), y.as_slice())
}

/// Whether `s` starts with `p`.
pub open spec fn has_prefix(s: Seq<char>, p: Seq<char>) -> bool {
    &&& p.len() <= s.len()
    &&& s.take(p.len() as int) == p
}

/// Whether `s` ends with `p`.
pub open spec fn has_suffix(s: Seq<char>, p: Seq<char>) -> bool {
    &&& p.len() <= s.len()
    &&& s.skip(s.len() - p.len()) == p
}

/// Whether `s` starts with the literal text `p`.
pub fn starts_with(s: &[char], p: &str) -> (r: bool)
    ensures
        r == has_prefix(s@, p@),
{
    let q = chars_of(p);
    if q.len() > s.len() {
        return false;
    }
    same_chars(slice_subrange(s, 0, q.len()), q.as_slice())
}

// ---------------------------------------------------------------------------
// Decimal numbers
// ---------------------------------------------------------------------------

/// The character of a decimal digit.
pub open spec fn digit_char(d: nat) -> char {
    (48 + d) as char
}

/// Whether `c` is one of the ten ASCII digits.
pub open spec fn is_digit(c: char) -> bool {
    48 <= c as int <= 57
}

/// The value of a decimal digit.
pub open spec fn digit_value(c: char) -> nat {
    (c as int - 48) as nat
}

/// Whether every character of `s` is an ASCII digit.
pub open spec fn all_digits(s: Seq<char>) -> bool {
    forall|i: int| 0 <= i < s.len() ==> is_digit(#[trigger] s[i])
}

/// The number that a sequence of digits stands for.
pub open spec fn digits_value(s: Seq<char>) -> nat
    decreases s.len(),
{
    if s.len() == 0 {
        0
    } else {
        digits_value(s.drop_last()) * 10 + digit_value(s.last())
    }
}

/// The decimal text of a number, without leading zeros.
pub open spec fn dec(n: nat) -> Seq<char>
    decreases n,
{
    if n < 10 {
        seq![digit_char(n)]
    } else {
        dec(n / 10).push(digit_char(n % 10))
    }
}

/// The number that a text stands for where it is read as an unsigned integer
/// of at most `max`: one or more digits, behind at most one `+`.
pub open spec fn parse_uint(s: Seq<char>, max: nat) -> Option<nat> {
    let t = if s.len() > 0 && s[0] == '+' {
        s.skip(1)
    } else {
        s
    };
    if t.len() > 0 && all_digits(t) && digits_value(t) <= max {
        Some(digits_value(t))
    } else {
        None
    }
}

/// The decimal text of a number reads back as that number.
pub proof fn lemma_dec(n: nat)
    ensures
        dec(n).len() > 0,
        all_digits(dec(n)),
        digits_value(dec(n)) == n,
    decreases n,
{
    if n < 10 {
        let d = dec(n);
        assert(d.drop_last() =~= Seq::<char>::empty());
        assert(digits_value(d.drop_last()) == 0);
    } else {
        lemma_dec(n / 10);
        let d = dec(n);
        assert(d.drop_last() =~= dec(n / 10));
        assert(d.last() == digit_char(n % 10));
        assert forall|i: int| 0 <= i < d.len() implies is_digit(#[trigger] d[i]) by {
            if i < d.len() - 1 {
                assert(d[i] == dec(n / 10)[i]);
            }
        }
    }
}

/// An unsigned integer within the bound survives being written and read.
pub proof fn lemma_parse_dec(n: nat, max: nat)
    requires
        n <= max,
    ensures
        parse_uint(dec(n), max) == Some(n),
{
    lemma_dec(n);
    assert(is_digit(dec(n)[0]));
}

/// Appends the decimal text of a number to a vector.
pub fn push_dec(out: &mut Vec<char>, n: u64)
    ensures
        final(out)@ == old(out)@ + dec(n as nat),
    decreases n,
{
    if n >= 10 {
        push_dec(out, n / 10);
    }
    let d: u8 = (n % 10) as u8;
    let c: char = (48u8 + d) as char;
    out.push(c);
    proof {
        assert(c == digit_char((n % 10) as nat));
        assert(out@ =~= old(out)@ + dec(n as nat));
    }
}

/// The decimal text of a number.
pub fn dec_text(n: u64) -> (r: String)
    ensures
        r@ == dec(n as nat),
{
    let mut out: Vec<char> = Vec::new();
    push_dec(&mut out, n);
    proof {
        assert(out@ =~= dec(n as nat));
    }
    string_of(out.as_slice())
}

/// Digits behind a prefix only make a number larger.
proof fn lemma_digits_value_prefix(s: Seq<char>, k: int)
    requires
        0 <= k <= s.len(),
    ensures
        digits_value(s.take(k)) <= digits_value(s),
    decreases s.len() - k,
{
    if k == s.len() {
        assert(s.take(k) =~= s);
    } else {
        lemma_digits_value_prefix(s, k + 1);
        assert(s.take(k + 1).drop_last() =~= s.take(k));
    }
}

/// The value of a slice of digits, where there is one that fits in 64 bits.
pub fn digits_u64(s: &[char]) -> (r: Option<u64>)
    requires
        all_digits(s@),
    ensures
        match r {
            Some(v) => v == digits_value(s@),
            None => digits_value(s@) > u64::MAX,
        },
{
    let mut v: u64 = 0;
    let mut i: usize = 0;
    proof {
        assert(s@.take(0) =~= Seq::<char>::empty());
    }
    while i < s.len()
        invariant
            i <= s@.len(),
            all_digits(s@),
            v == digits_value(s@.take(i as int)),
        decreases s@.len() - i,
    {
        proof {
            assert(s@.take(i + 1).drop_last() =~= s@.take(i as int));
            assert(s@.take(i + 1).last() == s@[i as int]);
            lemma_digits_value_prefix(s@, i + 1);
            assert(is_digit(s@[i as int]));
        }
        let d: u64 = (s[i] as u32 - 48) as u64;
        if v > (u64::MAX - d) / 10 {
            return None;
        }
        v = v * 10 + d;
        i = i + 1;
    }
    proof {
        assert(s@.take(i as int) =~= s@);
    }
    Some(v)
}

/// Whether a character is an ASCII digit.
pub fn digit(c: char) -> (r: bool)
    ensures
        r == is_digit(c),
{
    let v: u32 = c as u32;
    48 <= v && v <= 57
}

/// How many digits a slice starts with.
pub open spec fn digit_run(s: Seq<char>) -> nat
    decreases s.len(),
{
    if s.len() > 0 && is_digit(s[0]) {
        1 + digit_run(s.skip(1))
    } else {
        0
    }
}

/// A run of digits holds digits only and is not followed by a further digit.
pub proof fn lemma_digit_run(s: Seq<char>)
    ensures
        digit_run(s) <= s.len(),
        all_digits(s.take(digit_run(s) as int)),
        digit_run(s) < s.len() ==> !is_digit(s[digit_run(s) as int]),
    decreases s.len(),
{
    if s.len() > 0 && is_digit(s[0]) {
        let t = s.skip(1);
        lemma_digit_run(t);
        let n = digit_run(s) as int;
        assert forall|i: int| 0 <= i < n implies is_digit(#[trigger] s.take(n)[i]) by {
            if i > 0 {
                assert(s.take(n)[i] == t.take(n - 1)[i - 1]);
            }
        }
    }
}

/// A run of digits that is followed by no digit is the longest.
pub proof fn lemma_digit_run_is(s: Seq<char>, n: int)
    requires
        0 <= n <= s.len(),
        all_digits(s.take(n)),
        n < s.len() ==> !is_digit(s[n]),
    ensures
        digit_run(s) == n,
    decreases s.len(),
{
    if n > 0 {
        assert(is_digit(s.take(n)[0]));
        let t = s.skip(1);
        assert forall|i: int| 0 <= i < n - 1 implies is_digit(#[trigger] t.take(n - 1)[i]) by {
            assert(t.take(n - 1)[i] == s.take(n)[i + 1]);
        }
        lemma_digit_run_is(t, n - 1);
    }
}

/// The number of digits that a slice starts with.
pub fn count_digits(s: &[char]) -> (n: usize)
    ensures
        n == digit_run(s@),
{
    let mut i: usize = 0;
    while i < s.len() && digit(s[i])
        invariant
            i <= s@.len(),
            all_digits(s@.take(i as int)),
        decreases s@.len() - i,
    {
        proof {
            assert forall|k: int| 0 <= k < i + 1 implies is_digit(#[trigger] s@.take(i + 1)[k]) by {
                if k < i {
                    assert(s@.take(i + 1)[k] == s@.take(i as int)[k]);
                }
            }
        }
        i = i + 1;
    }
    proof {
        lemma_digit_run_is(s@, i as int);
    }
    i
}

/// Reads an unsigned integer of at most 32 bits.
pub fn read_u32(s: &[char]) -> (r: Option<u32>)
    ensures
        match r {
            Some(v) => parse_uint(s@, u32::MAX as nat) == Some(v as nat),
            None => parse_uint(s@, u32::MAX as nat) is None,
        },
{
    let start: usize = if s.len() > 0 && s[0] == '+' {
        1
    } else {
        0
    };
    let t = slice_subrange(s, start, s.len());
    proof {
        if start == 0 {
            assert(t@ =~= s@);
        } else {
            assert(t@ =~= s@.skip(1));
        }
        lemma_digit_run(t@);
    }
    let n: usize = count_digits(t);
    if n == 0 {
        return None;
    }
    if n < t.len() {
        return None;
    }
    proof {
        assert(t@.take(n as int) =~= t@);
    }
    match digits_u64(t) {
        Some(v) => if v <= 0xffff_ffff {
            Some(v as u32)
        } else {
            None
        },
        None => None,
    }
}

// ---------------------------------------------------------------------------
// Splitting and joining
// ---------------------------------------------------------------------------

/// The texts of a sequence of strings.
pub open spec fn views(v: Seq<String>) -> Seq<Seq<char>> {
    Seq::new(v.len(), |i: int| v[i]@)
}

/// The texts of a sequence with one more string behind it.
pub proof fn lemma_views_push(v: Seq<String>, s: String)
    ensures
        views(v.push(s)) == views(v).push(s@),
{
    assert(views(v.push(s)) =~= views(v).push(s@));
}

/// The pieces of a text between the occurrences of a separator. There is always
/// at least one piece, and a piece may be empty.
pub open spec fn split_on(s: Seq<char>, c: char) -> Seq<Seq<char>>
    decreases s.len(),
{
    if s.len() == 0 {
        seq![Seq::<char>::empty()]
    } else {
        let p = split_on(s.drop_last(), c);
        if s.last() == c {
            p.push(Seq::<char>::empty())
        } else {
            p.drop_last().push(p.last().push(s.last()))
        }
    }
}

/// The pieces with the separator text between each two of them.
pub open spec fn join(parts: Seq<Seq<char>>, sep: Seq<char>) -> Seq<char>
    decreases parts.len(),
{
    if parts.len() == 0 {
        Seq::<char>::empty()
    } else if parts.len() == 1 {
        parts[0]
    } else {
        join(parts.drop_last(), sep) + sep + parts.last()
    }
}

/// A text has at least one piece, no piece holds the separator, and joining the
/// pieces gives the text back.
pub proof fn lemma_join_split(s: Seq<char>, c: char)
    ensures
        split_on(s, c).len() > 0,
        forall|k: int| 0 <= k < split_on(s, c).len() ==> !(#[trigger] split_on(s, c)[k]).contains(c),
        join(split_on(s, c), seq![c]) == s,
    decreases s.len(),
{
    let q = split_on(s, c);
    if s.len() == 0 {
        assert(join(q, seq![c]) =~= s);
        assert forall|k: int| 0 <= k < q.len() implies !(#[trigger] q[k]).contains(c) by {}
    } else {
        let t = s.drop_last();
        lemma_join_split(t, c);
        let p = split_on(t, c);
        assert(s =~= t.push(s.last()));
        if s.last() == c {
            assert(q.drop_last() =~= p);
            assert(join(q, seq![c]) =~= s);
        } else {
            assert(q.drop_last() =~= p.drop_last());
            assert(join(q, seq![c]) =~= s);
            assert forall|k: int| 0 <= k < q.len() implies !(#[trigger] q[k]).contains(c) by {
                if k == q.len() - 1 {
                    let w = p.last();
                    assert(!p[p.len() - 1].contains(c));
                    assert forall|j: int| 0 <= j < q[k].len() implies q[k][j] != c by {
                        if j < w.len() {
                            assert(w[j] != c);
                        }
                    }
                } else {
                    assert(q[k] == p[k]);
                }
            }
        }
    }
}

/// Text without the separator extends the last piece.
pub proof fn lemma_split_append(s: Seq<char>, t: Seq<char>, c: char)
    requires
        !t.contains(c),
    ensures
        split_on(s, c).len() > 0,
        split_on(s + t, c) == split_on(s, c).drop_last().push(split_on(s, c).last() + t),
    decreases t.len(),
{
    lemma_join_split(s, c);
    let p = split_on(s, c);
    if t.len() == 0 {
        assert(s + t =~= s);
        assert(p.last() + t =~= p.last());
        assert(p.drop_last().push(p.last()) =~= p);
    } else {
        let u = t.drop_last();
        assert forall|i: int| 0 <= i < u.len() implies u[i] != c by {
            assert(t[i] != c);
        }
        lemma_split_append(s, u, c);
        assert((s + t).drop_last() =~= s + u);
        assert(t[t.len() - 1] != c);
        let q = split_on(s + u, c);
        assert(q.drop_last() =~= p.drop_last());
        assert(q.last() == p.last() + u);
        assert((p.last() + u).push(t.last()) =~= p.last() + t);
    }
}

/// Pieces without the separator survive being joined and split.
pub proof fn lemma_split_join(parts: Seq<Seq<char>>, c: char)
    requires
        parts.len() > 0,
        forall|k: int| 0 <= k < parts.len() ==> !(#[trigger] parts[k]).contains(c),
    ensures
        split_on(join(parts, seq![c]), c) == parts,
    decreases parts.len(),
{
    let e = Seq::<char>::empty();
    if parts.len() == 1 {
        assert(!parts[0].contains(c));
        lemma_split_append(e, parts[0], c);
        assert(e + parts[0] =~= parts[0]);
        let p = split_on(e, c);
        assert(p.drop_last().push(p.last() + parts[0]) =~= parts);
    } else {
        let front = parts.drop_last();
        assert forall|k: int| 0 <= k < front.len() implies !(#[trigger] front[k]).contains(c) by {
            assert(front[k] == parts[k]);
        }
        lemma_split_join(front, c);
        let j = join(front, seq![c]);
        let jc = j + seq![c];
        assert(jc.drop_last() =~= j);
        assert(jc.last() == c);
        assert(split_on(jc, c) == front.push(e));
        assert(!parts[parts.len() - 1].contains(c));
        lemma_split_append(jc, parts.last(), c);
        let p = split_on(jc, c);
        assert(p.drop_last() =~= front);
        assert(p.last() + parts.last() =~= parts.last());
        assert(front.push(parts.last()) =~= parts);
    }
}

/// The pieces of a slice between the occurrences of a separator.
pub fn split_chars(s: &[char], c: char) -> (r: Vec<String>)
    ensures
        views(r@) == split_on(s@, c),
{
    let mut out: Vec<String> = Vec::new();
    let mut cur: String = String::new();
    let mut i: usize = 0;
    proof {
        assert(s@.take(0) =~= Seq::<char>::empty());
        assert(views(out@).push(cur@) =~= split_on(s@.take(0), c));
    }
    while i < s.len()
        invariant
            i <= s@.len(),
            views(out@).push(cur@) == split_on(s@.take(i as int), c),
        decreases s@.len() - i,
    {
        proof {
            assert(s@.take(i + 1).drop_last() =~= s@.take(i as int));
            assert(s@.take(i + 1).last() == s@[i as int]);
            assert(views(out@).push(cur@).drop_last() =~= views(out@));
        }
        let x: char = s[i];
        if x == c {
            let piece = cur;
            cur = String::new();
            proof {
                lemma_views_push(out@, piece);
            }
            out.push(piece);
        } else {
            cur.push(x);
        }
        proof {
            assert(views(out@).push(cur@) =~= split_on(s@.take(i + 1), c));
        }
        i = i + 1;
    }
    proof {
        assert(s@.take(i as int) =~= s@);
        lemma_views_push(out@, cur);
    }
    out.push(cur);
    out
}

/// The strings with the separator text between each two of them.
pub fn join_texts(parts: &Vec<String>, sep: &str) -> (r: String)
    ensures
        r@ == join(views(parts@), sep@),
{
    let mut out: String = String::new();
    let mut i: usize = 0;
    proof {
        assert(join(views(parts@).take(0), sep@) =~= Seq::<char>::empty());
    }
    while i < parts.len()
        invariant
            i <= parts@.len(),
            out@ == join(views(parts@).take(i as int), sep@),
        decreases parts@.len() - i,
    {
        proof {
            let v = views(parts@);
            assert(v.take(i + 1).drop_last() =~= v.take(i as int));
            assert(v.take(i + 1).last() == parts@[i as int]@);
            assert(i == 0 ==> out@ + parts@[i as int]@ =~= parts@[i as int]@);
        }
        if i > 0 {
            out.append(sep);
        }
        out.append(parts[i].as_str());
        i = i + 1;
    }
    proof {
        assert(views(parts@).take(i as int) =~= views(parts@));
    }
    out
}

// ---------------------------------------------------------------------------
// Searching
// ---------------------------------------------------------------------------

/// Whether `p` stands in `s` at position `i`.
pub open spec fn occurs_at(s: Seq<char>, p: Seq<char>, i: int) -> bool {
    &&& 0 <= i
    &&& i + p.len() <= s.len()
    &&& s.subrange(i, i + p.len()) == p
}

/// The first position at or after `from` where `p` stands in `s`.
pub open spec fn find_from(s: Seq<char>, p: Seq<char>, from: int) -> Option<int>
    decreases s.len() - from + 1,
{
    if from + p.len() > s.len() {
        None
    } else if occurs_at(s, p, from) {
        Some(from)
    } else {
        find_from(s, p, from + 1)
    }
}

/// The first occurrence is found at the first position where the text stands.
pub proof fn lemma_find_is(s: Seq<char>, p: Seq<char>, from: int, at: int)
    requires
        0 <= from <= at,
        occurs_at(s, p, at),
        forall|k: int| from <= k < at ==> !occurs_at(s, p, k),
    ensures
        find_from(s, p, from) == Some(at),
    decreases at - from,
{
    if from < at {
        lemma_find_is(s, p, from + 1, at);
    }
}

/// What is found is an occurrence.
pub proof fn lemma_find_occurs(s: Seq<char>, p: Seq<char>, from: int)
    requires
        0 <= from,
    ensures
        find_from(s, p, from) matches Some(at) ==> from <= at && occurs_at(s, p, at),
    decreases s.len() - from + 1,
{
    if from + p.len() <= s.len() && !occurs_at(s, p, from) {
        lemma_find_occurs(s, p, from + 1);
    }
}

/// Where nothing is found there is no occurrence, and before what is found there is
/// none.
pub proof fn lemma_find_first(s: Seq<char>, p: Seq<char>, from: int, k: int)
    requires
        0 <= from <= k,
        match find_from(s, p, from) {
            Some(at) => k < at,
            None => true,
        },
    ensures
        !occurs_at(s, p, k),
    decreases s.len() - from + 1,
{
    if from + p.len() <= s.len() && !occurs_at(s, p, from) && from < k {
        lemma_find_first(s, p, from + 1, k);
    }
}

/// The first position where a literal text stands in a slice.
pub fn find_text(s: &[char], p: &str) -> (r: Option<usize>)
    ensures
        match r {
            Some(i) => find_from(s@, p@, 0) == Some(i as int),
            None => find_from(s@, p@, 0) is None,
        },
{
    let q = chars_of(p);
    let n: usize = q.len();
    if n > s.len() {
        return None;
    }
    let last: usize = s.len() - n;
    let mut i: usize = 0;
    while i <= last
        invariant
            n == q@.len(),
            q@ == p@,
            last + n == s@.len(),
            s@.len() <= usize::MAX,
            i <= last + 1,
            find_from(s@, p@, 0) == find_from(s@, p@, i as int),
        decreases last + 1 - i,
    {
        if same_chars(slice_subrange(s, i, i + n), q.as_slice()) {
            return Some(i);
        }
        proof {
            assert(!occurs_at(s@, p@, i as int));
        }
        if i == last {
            proof {
                assert(find_from(s@, p@, i + 1) is None);
            }
            return None;
        }
        i = i + 1;
    }
    None
}

/// The last position of a character.
pub open spec fn rfind(s: Seq<char>, c: char) -> Option<int>
    decreases s.len(),
{
    if s.len() == 0 {
        None
    } else if s.last() == c {
        Some(s.len() - 1)
    } else {
        rfind(s.drop_last(), c)
    }
}

/// What is found is the last position that holds the character; nothing is found
/// only where no position does.
pub proof fn lemma_rfind(s: Seq<char>, c: char)
    ensures
        match rfind(s, c) {
            Some(i) => 0 <= i < s.len() && s[i] == c && forall|k: int|
                i < k < s.len() ==> s[k] != c,
            None => !s.contains(c),
        },
    decreases s.len(),
{
    if s.len() > 0 && s.last() != c {
        lemma_rfind(s.drop_last(), c);
        let t = s.drop_last();
        match rfind(t, c) {
            Some(i) => {
                assert forall|k: int| i < k < s.len() implies s[k] != c by {
                    if k < t.len() {
                        assert(t[k] != c);
                    }
                }
            },
            None => {
                assert forall|k: int| 0 <= k < s.len() implies s[k] != c by {
                    if k < t.len() {
                        assert(t[k] != c);
                    }
                }
            },
        }
    }
}

/// The last position that holds the character is the one that is found.
pub proof fn lemma_rfind_is(s: Seq<char>, c: char, i: int)
    requires
        0 <= i < s.len(),
        s[i] == c,
        forall|k: int| i < k < s.len() ==> s[k] != c,
    ensures
        rfind(s, c) == Some(i),
{
    lemma_rfind(s, c);
    match rfind(s, c) {
        Some(j) => {
            if j < i {
                assert(s[i] != c);
            }
            if j > i {
                assert(s[j] != c);
            }
        },
        None => {
            assert(s.contains(c));
        },
    }
}

/// The last position of a character in a slice.
pub fn rfind_char(s: &[char], c: char) -> (r: Option<usize>)
    ensures
        match r {
            Some(i) => rfind(s@, c) == Some(i as int),
            None => rfind(s@, c) is None,
        },
{
    let mut i: usize = s.len();
    proof {
        assert(s@.take(i as int) =~= s@);
    }
    while i > 0
        invariant
            i <= s@.len(),
            rfind(s@, c) == rfind(s@.take(i as int), c),
        decreases i,
    {
        proof {
            assert(s@.take(i as int).drop_last() =~= s@.take(i - 1));
            assert(s@.take(i as int).last() == s@[i - 1]);
        }
        i = i - 1;
        if s[i] == c {
            return Some(i);
        }
    }
    None
}

/// Whether a slice holds a character.
pub fn contains_char(s: &[char], c: char) -> (r: bool)
    ensures
        r == s@.contains(c),
{
    proof {
        lemma_rfind(s@, c);
    }
    match rfind_char(s, c) {
        Some(_) => true,
        None => false,
    }
}

// ---------------------------------------------------------------------------
// White space and case
// ---------------------------------------------------------------------------

/// The characters with the Unicode property `White_Space`.
pub open spec fn is_space(c: char) -> bool {
    let v = c as int;
    ||| 0x09 <= v <= 0x0d
    ||| v == 0x20
    ||| v == 0x85
    ||| v == 0xa0
    ||| v == 0x1680
    ||| 0x2000 <= v <= 0x200a
    ||| v == 0x2028
    ||| v == 0x2029
    ||| v == 0x202f
    ||| v == 0x205f
    ||| v == 0x3000
}

/// The text without the white space that it starts with.
pub open spec fn trim_start(s: Seq<char>) -> Seq<char>
    decreases s.len(),
{
    if s.len() > 0 && is_space(s[0]) {
        trim_start(s.skip(1))
    } else {
        s
    }
}

/// The text without the white space that it ends with.
pub open spec fn trim_end(s: Seq<char>) -> Seq<char>
    decreases s.len(),
{
    if s.len() > 0 && is_space(s.last()) {
        trim_end(s.drop_last())
    } else {
        s
    }
}

/// The text without the white space at both ends.
pub open spec fn trim(s: Seq<char>) -> Seq<char> {
    trim_end(trim_start(s))
}

/// Whether a character has the Unicode property `White_Space`.
pub fn space(c: char) -> (r: bool)
    ensures
        r == is_space(c),
{
    let v: u32 = c as u32;
    (0x09 <= v && v <= 0x0d) || v == 0x20 || v == 0x85 || v == 0xa0 || v == 0x1680 || (0x2000 <= v
        && v <= 0x200a) || v == 0x2028 || v == 0x2029 || v == 0x202f || v == 0x205f || v == 0x3000
}

/// The slice without the white space at both ends.
pub fn trim_chars(s: &[char]) -> (r: &[char])
    ensures
        r@ == trim(s@),
{
    let mut a: usize = 0;
    proof {
        assert(s@.skip(0) =~= s@);
    }
    while a < s.len() && space(s[a])
        invariant
            a <= s@.len(),
            trim_start(s@) == trim_start(s@.skip(a as int)),
        decreases s@.len() - a,
    {
        proof {
            assert(s@.skip(a as int).skip(1) =~= s@.skip(a + 1));
        }
        a = a + 1;
    }
    let mut b: usize = s.len();
    proof {
        assert(trim_start(s@) == s@.skip(a as int));
        assert(s@.skip(a as int) =~= s@.subrange(a as int, b as int));
    }
    while b > a && space(s[b - 1])
        invariant
            a <= b <= s@.len(),
            trim_end(trim_start(s@)) == trim_end(s@.subrange(a as int, b as int)),
        decreases b,
    {
        proof {
            assert(s@.subrange(a as int, b as int).drop_last() =~= s@.subrange(a as int, b - 1));
        }
        b = b - 1;
    }
    slice_subrange(s, a, b)
}

/// The lower case of an ASCII letter; any other character is kept.
pub open spec fn lower_char(c: char) -> char {
    if 65 <= c as int <= 90 {
        (c as int + 32) as char
    } else {
        c
    }
}

/// The text with its ASCII letters in lower case.
pub open spec fn lower(s: Seq<char>) -> Seq<char> {
    Seq::new(s.len(), |i: int| lower_char(s[i]))
}

/// The slice as a string with its ASCII letters in lower case.
pub fn lower_text(s: &[char]) -> (r: String)
    ensures
        r@ == lower(s@),
{
    let mut out: String = String::new();
    let mut i: usize = 0;
    while i < s.len()
        invariant
            i <= s@.len(),
            out@ == lower(s@).take(i as int),
        decreases s@.len() - i,
    {
        let v: u32 = s[i] as u32;
        let c: char = if 65 <= v && v <= 90 {
            (v as u8 + 32) as char
        } else {
            s[i]
        };
        out.push(c);
        proof {
            assert(c == lower_char(s@[i as int]));
            assert(lower(s@).take(i + 1) =~= lower(s@).take(i as int).push(c));
        }
        i = i + 1;
    }
    proof {
        assert(lower(s@).take(i as int) =~= lower(s@));
    }
    out
}

// ---------------------------------------------------------------------------
// Lines
// ---------------------------------------------------------------------------

/// A line without the carriage return that it ends with.
pub open spec fn strip_return(s: Seq<char>) -> Seq<char> {
    if s.len() > 0 && s.last() == '\r' {
        s.drop_last()
    } else {
        s
    }
}

/// The lines among `pieces` that are not empty, where each piece was ended by a
/// line feed and a carriage return before the line feed belongs to the ending.
pub open spec fn full_lines(pieces: Seq<Seq<char>>) -> Seq<Seq<char>>
    decreases pieces.len(),
{
    if pieces.len() == 0 {
        Seq::<Seq<char>>::empty()
    } else {
        let front = full_lines(pieces.drop_last());
        let l = strip_return(pieces.last());
        if l.len() == 0 {
            front
        } else {
            front.push(l)
        }
    }
}

/// The lines of a text that are not empty. A line ends with a line feed, with or
/// without a carriage return before it; what follows the last line feed is a
/// line as it stands.
pub open spec fn text_lines(s: Seq<char>) -> Seq<Seq<char>> {
    let p = split_on(s, '\n');
    let front = full_lines(p.drop_last());
    if p.last().len() == 0 {
        front
    } else {
        front.push(p.last())
    }
}

/// The lines of a text that are not empty.
pub fn lines_of(s: &str) -> (r: Vec<String>)
    ensures
        views(r@) == text_lines(s@),
{
    let cs = chars_of(s);
    let pieces = split_chars(cs.as_slice(), '\n');
    proof {
        lemma_join_split(s@, '\n');
    }
    let last: usize = pieces.len() - 1;
    let ghost p = views(pieces@);
    let mut out: Vec<String> = Vec::new();
    let mut i: usize = 0;
    proof {
        assert(p.take(0) =~= Seq::<Seq<char>>::empty());
        assert(views(out@) =~= full_lines(p.take(0)));
    }
    while i < last
        invariant
            i <= last,
            last == pieces@.len() - 1,
            p == views(pieces@),
            views(out@) == full_lines(p.take(i as int)),
        decreases last - i,
    {
        let line = chars_of(pieces[i].as_str());
        let n: usize = line.len();
        let end: usize = if n > 0 && line[n - 1] == '\r' {
            n - 1
        } else {
            n
        };
        proof {
            assert(p.take(i + 1).drop_last() =~= p.take(i as int));
            assert(p.take(i + 1).last() == line@);
            assert(strip_return(line@) =~= line@.take(end as int));
        }
        if end > 0 {
            let l = string_of(slice_subrange(line.as_slice(), 0, end));
            proof {
                assert(l@ =~= strip_return(line@));
                lemma_views_push(out@, l);
            }
            out.push(l);
        }
        i = i + 1;
    }
    proof {
        assert(p.take(i as int) =~= p.drop_last());
        assert(p.last() == pieces@[last as int]@);
    }
    if !pieces[last].as_str().is_empty() {
        let l = pieces[last].clone();
        proof {
            lemma_views_push(out@, l);
        }
        out.push(l);
    }
    out
}

// ---------------------------------------------------------------------------
// Laws
// ---------------------------------------------------------------------------

/// Joining keeps every piece with the separator between each two: nothing joins to
/// nothing, one piece to itself, and two lists to what each joins to with the separator
/// between.
pub proof fn law_join(a: Seq<Seq<char>>, b: Seq<Seq<char>>, one: Seq<char>, sep: Seq<char>)
    requires
        a.len() > 0,
        b.len() > 0,
    ensures
        join(Seq::<Seq<char>>::empty(), sep) == Seq::<char>::empty(),
        join(seq![one], sep) == one,
        join(a + b, sep) == join(a, sep) + sep + join(b, sep),
    decreases b.len(),
{
    let ab = a + b;
    if b.len() == 1 {
        assert(ab.drop_last() =~= a);
        assert(join(b, sep) == b[0]);
    } else {
        let front = b.drop_last();
        law_join(a, front, one, sep);
        assert(ab.drop_last() =~= a + front);
        assert(join(a, sep) + sep + join(front, sep) + sep + b.last() =~= join(a, sep) + sep + (
        join(front, sep) + sep + b.last()));
    }
}

/// A separator between two texts parts their pieces.
proof fn lemma_split_follow(a: Seq<char>, b: Seq<char>, c: char)
    ensures
        split_on(a + seq![c] + b, c) == split_on(a, c) + split_on(b, c),
    decreases b.len(),
{
    let s = a + seq![c] + b;
    lemma_join_split(a, c);
    lemma_join_split(b, c);
    let p = split_on(a, c);
    if b.len() == 0 {
        assert(s.drop_last() =~= a);
        assert(s.last() == c);
        assert(split_on(s, c) =~= p + split_on(b, c));
    } else {
        let t = b.drop_last();
        lemma_split_follow(a, t, c);
        lemma_join_split(t, c);
        let q = split_on(t, c);
        assert(s.drop_last() =~= a + seq![c] + t);
        assert(s.last() == b.last());
        if b.last() == c {
            assert((p + q).push(Seq::<char>::empty()) =~= p + q.push(Seq::<char>::empty()));
        } else {
            assert((p + q).drop_last().push((p + q).last().push(b.last())) =~= p
                + q.drop_last().push(q.last().push(b.last())));
        }
    }
}

/// The lines of pieces follow each other.
proof fn lemma_full_lines_add(p: Seq<Seq<char>>, q: Seq<Seq<char>>)
    ensures
        full_lines(p + q) == full_lines(p) + full_lines(q),
    decreases q.len(),
{
    if q.len() == 0 {
        assert(p + q =~= p);
        assert(full_lines(p) + full_lines(q) =~= full_lines(p));
    } else {
        let t = q.drop_last();
        lemma_full_lines_add(p, t);
        assert((p + q).drop_last() =~= p + t);
        assert((p + q).last() == q.last());
        assert(full_lines(p + q) =~= full_lines(p) + full_lines(q));
    }
}

/// The lines of one piece.
proof fn lemma_full_lines_one(l: Seq<char>)
    ensures
        full_lines(seq![l]) == (if strip_return(l).len() == 0 {
            Seq::<Seq<char>>::empty()
        } else {
            seq![strip_return(l)]
        }),
{
    assert(seq![l].drop_last() =~= Seq::<Seq<char>>::empty());
    assert(full_lines(seq![l].drop_last()) =~= Seq::<Seq<char>>::empty());
    assert(Seq::<Seq<char>>::empty().push(strip_return(l)) =~= seq![strip_return(l)]);
}

/// A text without a line feed is one piece.
proof fn lemma_split_none(s: Seq<char>, c: char)
    requires
        !s.contains(c),
    ensures
        split_on(s, c) == seq![s],
{
    assert(join(seq![s], seq![c]) == s);
    lemma_split_join(seq![s], c);
}

/// What stands before a line feed and what stands behind it give their lines apart from
/// each other, and in that order.
pub proof fn law_lines_follow(a: Seq<char>, b: Seq<char>)
    ensures
        text_lines(a + seq!['\n'] + b) == text_lines(a + seq!['\n']) + text_lines(b),
{
    let e = Seq::<char>::empty();
    lemma_split_follow(a, b, '\n');
    lemma_split_follow(a, e, '\n');
    lemma_join_split(a, '\n');
    lemma_join_split(b, '\n');
    assert(a + seq!['\n'] + e =~= a + seq!['\n']);
    let p = split_on(a, '\n');
    let q = split_on(b, '\n');
    assert((p + seq![e]).drop_last() =~= p);
    assert(split_on(e, '\n') == seq![e]);
    assert((p + q).drop_last() =~= p + q.drop_last());
    lemma_full_lines_add(p, q.drop_last());
    assert(text_lines(a + seq!['\n'] + b) =~= text_lines(a + seq!['\n']) + text_lines(b));
}

/// A text without a line feed is one line, unless it is empty. With a line feed behind
/// it, it is that line less the carriage return that it ends with, and no line where
/// nothing else is left.
pub proof fn law_one_line(l: Seq<char>)
    requires
        !l.contains('\n'),
    ensures
        l.len() == 0 ==> text_lines(l).len() == 0,
        l.len() > 0 ==> text_lines(l) == seq![l],
        l.len() == 0 ==> text_lines(l + seq!['\n']).len() == 0,
        l.len() > 0 && l.last() != '\r' ==> text_lines(l + seq!['\n']) == seq![l],
        l.len() > 1 && l.last() == '\r' ==> text_lines(l + seq!['\n']) == seq![l.drop_last()],
        l == seq!['\r'] ==> text_lines(l + seq!['\n']).len() == 0,
{
    let e = Seq::<char>::empty();
    lemma_split_none(l, '\n');
    lemma_split_follow(l, e, '\n');
    assert(split_on(e, '\n') == seq![e]);
    assert(l + seq!['\n'] + e =~= l + seq!['\n']);
    assert(seq![l].drop_last() =~= Seq::<Seq<char>>::empty());
    assert((seq![l] + seq![e]).drop_last() =~= seq![l]);
    assert(full_lines(Seq::<Seq<char>>::empty()) =~= Seq::<Seq<char>>::empty());
    lemma_full_lines_one(l);
    assert(Seq::<Seq<char>>::empty().push(l) =~= seq![l]);
}

/// Texts, each with a line feed behind it.
pub open spec fn printed(lines: Seq<Seq<char>>) -> Seq<char>
    decreases lines.len(),
{
    if lines.len() == 0 {
        Seq::<char>::empty()
    } else {
        printed(lines.drop_last()) + lines.last() + seq!['\n']
    }
}

/// Lines that were printed are read as they were printed: all of them, in order, however
/// often one of them occurs.
pub proof fn law_printed_lines(lines: Seq<Seq<char>>)
    requires
        forall|i: int|
            0 <= i < lines.len() ==> (#[trigger] lines[i]).len() > 0 && !lines[i].contains('\n')
                && !lines[i].contains('\r'),
    ensures
        text_lines(printed(lines)) == lines,
    decreases lines.len(),
{
    if lines.len() == 0 {
        assert(!printed(lines).contains('\n'));
        law_one_line(printed(lines));
        assert(text_lines(printed(lines)) =~= lines);
    } else {
        let front = lines.drop_last();
        let l = lines[lines.len() - 1];
        assert forall|i: int| 0 <= i < front.len() implies (#[trigger] front[i]).len() > 0
            && !front[i].contains('\n') && !front[i].contains('\r') by {
            assert(front[i] == lines[i]);
        }
        law_printed_lines(front);
        assert(l.last() != '\r') by {
            assert(l[l.len() - 1] == l.last());
        }
        law_one_line(l);
        let a = printed(front);
        if front.len() == 0 {
            assert(printed(lines) =~= l + seq!['\n']);
        } else {
            let b = a.drop_last();
            assert(a.last() == '\n');
            assert(b + seq!['\n'] =~= a);
            assert(printed(lines) =~= b + seq!['\n'] + (l + seq!['\n']));
            law_lines_follow(b, l + seq!['\n']);
        }
        assert(front + seq![l] =~= lines);
    }
}

/// The first digit of a number counts as many times ten as digits follow it.
pub proof fn law_digits_by_place(s: Seq<char>, c: char)
    requires
        s.len() > 0,
        all_digits(s),
        '0' <= c <= '9',
    ensures
        digits_value(seq![c]) == c as int - '0' as int,
        digits_value(s) == (s[0] as int - '0' as int) * pow(10, (s.len() - 1) as nat)
            + digits_value(s.skip(1)),
    decreases s.len(),
{
    assert(seq![c].drop_last() =~= Seq::<char>::empty());
    assert(digits_value(seq![c].drop_last()) == 0);
    lemma_pow0(10);
    if s.len() == 1 {
        assert(s =~= seq![s[0]]);
        assert(seq![s[0]].drop_last() =~= Seq::<char>::empty());
        assert(digits_value(seq![s[0]].drop_last()) == 0);
        assert(is_digit(s[0]));
        assert(s.skip(1) =~= Seq::<char>::empty());
        assert(digits_value(s.skip(1)) == 0);
    } else {
        let t = s.drop_last();
        assert forall|i: int| 0 <= i < t.len() implies is_digit(#[trigger] t[i]) by {
            assert(t[i] == s[i]);
        }
        law_digits_by_place(t, c);
        assert(t[0] == s[0]);
        assert(t.skip(1) =~= s.skip(1).drop_last());
        assert(s.skip(1).last() == s.last());
        lemma_pow1(10);
        lemma_pow_adds(10, (t.len() - 1) as nat, 1);
        let d = s[0] as int - '0' as int;
        let p = pow(10, (t.len() - 1) as nat);
        assert((d * p) * 10 == d * (p * 10)) by (nonlinear_arith);
        assert(digits_value(s) == digits_value(t) * 10 + digit_value(s.last()));
        assert((d * p + digits_value(t.skip(1))) * 10 == (d * p) * 10 + digits_value(t.skip(1))
            * 10) by (nonlinear_arith);
    }
}

/// The decimal text of a number holds digits alone, starts with no zero unless it is
/// zero, and stands for the number.
pub proof fn law_decimal_text(n: nat)
    ensures
        dec(n).len() > 0,
        forall|i: int| 0 <= i < dec(n).len() ==> '0' <= #[trigger] dec(n)[i] <= '9',
        n > 0 ==> dec(n)[0] != '0',
        n == 0 ==> dec(n) == seq!['0'],
        digits_value(dec(n)) == n,
    decreases n,
{
    lemma_dec(n);
    assert forall|i: int| 0 <= i < dec(n).len() implies '0' <= #[trigger] dec(n)[i] <= '9' by {
        assert(is_digit(dec(n)[i]));
    }
    if n >= 10 {
        law_decimal_text(n / 10);
        assert(dec(n)[0] == dec(n / 10)[0]);
    }
}

/// A text is read as an unsigned number exactly where it is digits, behind one plus sign
/// or none, and their number is within the bound.
pub proof fn law_parse_uint(s: Seq<char>, max: nat)
    ensures
        s.len() > 0 && all_digits(s) ==> parse_uint(s, max) == (if digits_value(s) <= max {
            Some(digits_value(s))
        } else {
            None
        }),
        s.len() > 0 && s[0] == '+' && parse_uint(s, max) is Some ==> parse_uint(s, max)
            == parse_uint(s.skip(1), max),
        s.len() > 1 && s[0] == '+' && all_digits(s.skip(1)) ==> parse_uint(s, max) == parse_uint(
            s.skip(1),
            max,
        ),
        s.len() == 0 ==> parse_uint(s, max) is None,
        forall|i: int|
            0 <= i < s.len() && !('0' <= #[trigger] s[i] <= '9') && !(i == 0 && s[0] == '+')
                ==> parse_uint(s, max) is None,
        s == seq!['+'] ==> parse_uint(s, max) is None,
{
    if s.len() > 0 && all_digits(s) {
        assert(is_digit(s[0]));
    }
    if s.len() > 1 {
        assert(s.skip(1)[0] == s[1]);
        if all_digits(s.skip(1)) {
            assert(is_digit(s.skip(1)[0]));
        }
    }
    let t = if s.len() > 0 && s[0] == '+' {
        s.skip(1)
    } else {
        s
    };
    if t.len() > 0 && all_digits(t) {
        assert(is_digit(t[0]));
    }
    assert forall|i: int|
        0 <= i < s.len() && !('0' <= #[trigger] s[i] <= '9') && !(i == 0 && s[0]
            == '+') implies parse_uint(s, max) is None by {
        if all_digits(t) {
            if s[0] == '+' {
                assert(t[i - 1] == s[i]);
            }
            assert(is_digit(s[i]));
        }
    }
}

/// White space is the tab, the line feed, the vertical tab, the form feed, the carriage
/// return, the space, and the separators that Unicode counts among it; and nothing else is.
pub proof fn law_white_space(c: char)
    ensures
        is_space(c) <==> seq![
            '\t', '\n', '\u{b}', '\u{c}', '\r', ' ', '\u{85}', '\u{a0}', '\u{1680}', '\u{2000}',
            '\u{2001}', '\u{2002}', '\u{2003}', '\u{2004}', '\u{2005}', '\u{2006}', '\u{2007}',
            '\u{2008}', '\u{2009}', '\u{200a}', '\u{2028}', '\u{2029}', '\u{202f}', '\u{205f}',
            '\u{3000}',
        ].contains(c),
{
    let all = seq![
        '\t', '\n', '\u{b}', '\u{c}', '\r', ' ', '\u{85}', '\u{a0}', '\u{1680}', '\u{2000}',
        '\u{2001}', '\u{2002}', '\u{2003}', '\u{2004}', '\u{2005}', '\u{2006}', '\u{2007}',
        '\u{2008}', '\u{2009}', '\u{200a}', '\u{2028}', '\u{2029}', '\u{202f}', '\u{205f}',
        '\u{3000}',
    ];
    if is_space(c) {
        let v = c as int;
        let i: int = if v <= 0x0d {
            v - 9
        } else if v == 0x20 {
            5
        } else if v == 0x85 {
            6
        } else if v == 0xa0 {
            7
        } else if v == 0x1680 {
            8
        } else if v <= 0x200a {
            v - 0x2000 + 9
        } else if v == 0x2028 {
            20
        } else if v == 0x2029 {
            21
        } else if v == 0x202f {
            22
        } else if v == 0x205f {
            23
        } else {
            24
        };
        assert(all[i] == c);
    }
}

/// The digits are `0` to `9`, each stands for its place in that row, and nothing else is one.
pub proof fn law_digits(c: char)
    ensures
        is_digit(c) <==> seq!['0', '1', '2', '3', '4', '5', '6', '7', '8', '9'].contains(c),
        is_digit(c) ==> digit_value(c) < 10 && seq![
            '0', '1', '2', '3', '4', '5', '6', '7', '8', '9',
        ][digit_value(c) as int] == c && digit_char(digit_value(c)) == c,
{
    let all = seq!['0', '1', '2', '3', '4', '5', '6', '7', '8', '9'];
    if is_digit(c) {
        assert(all[c as int - 48] == c);
    }
}

/// Trimming takes white space from both ends and nothing else, and leaves none there.
pub proof fn law_trim(s: Seq<char>) -> (r: (int, int))
    ensures
        0 <= r.0 <= r.1 <= s.len(),
        trim(s) == s.subrange(r.0, r.1),
        forall|i: int| 0 <= i < r.0 ==> is_space(#[trigger] s[i]),
        forall|i: int| r.1 <= i < s.len() ==> is_space(#[trigger] s[i]),
        r.0 < r.1 ==> !is_space(s[r.0]) && !is_space(s[r.1 - 1]),
{
    let a = lemma_trim_start(s);
    let t = s.skip(a);
    let b = lemma_trim_end(t);
    assert(trim(s) =~= s.subrange(a, a + b));
    assert forall|i: int| a + b <= i < s.len() implies is_space(#[trigger] s[i]) by {
        assert(t[i - a] == s[i]);
    }
    (a, a + b)
}

/// How much white space a text starts with.
proof fn lemma_trim_start(s: Seq<char>) -> (n: int)
    ensures
        0 <= n <= s.len(),
        trim_start(s) == s.skip(n),
        forall|i: int| 0 <= i < n ==> is_space(#[trigger] s[i]),
        n < s.len() ==> !is_space(s[n]),
    decreases s.len(),
{
    if s.len() > 0 && is_space(s[0]) {
        let t = s.skip(1);
        let n = lemma_trim_start(t);
        assert(t.skip(n) =~= s.skip(n + 1));
        assert forall|i: int| 0 <= i < n + 1 implies is_space(#[trigger] s[i]) by {
            if i > 0 {
                assert(t[i - 1] == s[i]);
            }
        }
        n + 1
    } else {
        assert(s.skip(0) =~= s);
        0
    }
}

/// How much of a text stands before the white space that it ends with.
proof fn lemma_trim_end(s: Seq<char>) -> (n: int)
    ensures
        0 <= n <= s.len(),
        trim_end(s) == s.take(n),
        forall|i: int| n <= i < s.len() ==> is_space(#[trigger] s[i]),
        n > 0 ==> !is_space(s[n - 1]),
    decreases s.len(),
{
    if s.len() > 0 && is_space(s.last()) {
        let t = s.drop_last();
        let n = lemma_trim_end(t);
        assert(t.take(n) =~= s.take(n));
        assert forall|i: int| n <= i < s.len() implies is_space(#[trigger] s[i]) by {
            if i < t.len() {
                assert(t[i] == s[i]);
            }
        }
        n
    } else {
        assert(s.take(s.len() as int) =~= s);
        s.len() as int
    }
}

/// White space on either side of a text does not change what trimming leaves of it.
pub proof fn law_trim_ignores_space(a: Seq<char>, s: Seq<char>, b: Seq<char>)
    requires
        forall|i: int| 0 <= i < a.len() ==> is_space(#[trigger] a[i]),
        forall|i: int| 0 <= i < b.len() ==> is_space(#[trigger] b[i]),
    ensures
        trim(a + s + b) == trim(s),
{
    let t = a + s + b;
    let x = law_trim(t);
    let y = law_trim(s);
    let n = a.len() as int;
    assert forall|i: int| 0 <= i < s.len() implies t[n + i] == s[i] by {}
    if y.0 < y.1 {
        assert(t[n + y.0] == s[y.0]);
        assert(t[n + y.1 - 1] == s[y.1 - 1]);
        assert(x.0 <= n + y.0);
        assert(x.1 >= n + y.1);
        if x.0 < n {
            assert(t[x.0] == a[x.0]);
        } else if x.0 < n + y.0 {
            assert(t[x.0] == s[x.0 - n]);
        }
        if x.1 > n + s.len() {
            assert(t[x.1 - 1] == b[x.1 - 1 - n - s.len()]);
        } else if x.1 > n + y.1 {
            assert(t[x.1 - 1] == s[x.1 - 1 - n]);
        }
        assert(trim(t) =~= trim(s));
    } else {
        if x.0 < x.1 {
            let i = x.0;
            if i < n {
                assert(t[i] == a[i]);
            } else if i < n + s.len() {
                assert(t[i] == s[i - n]);
                assert(is_space(s[i - n]));
            } else {
                assert(t[i] == b[i - n - s.len()]);
            }
        }
        assert(trim(t) =~= trim(s));
    }
}

/// Lower case changes the letters from A to Z, each into its own, and nothing else.
pub proof fn law_lower(s: Seq<char>, i: int)
    requires
        0 <= i < s.len(),
    ensures
        lower(s).len() == s.len(),
        'A' <= s[i] <= 'Z' ==> lower(s)[i] as int == s[i] as int - 'A' as int + 'a' as int,
        !('A' <= s[i] <= 'Z') ==> lower(s)[i] == s[i],
{
}

} // verus!
