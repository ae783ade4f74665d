//! Spark SQL identifiers: backtick quoting and dotted names.

use vstd::prelude::*;
use vstd::string::*;

use crate::text::{chars_of, contains_char, join, views};

verus! {

// ---------------------------------------------------------------------------
// Quoting one identifier
// ---------------------------------------------------------------------------

/// A character of a name as it stands between backticks.
pub open spec fn escape_char(c: char) -> Seq<char> {
    if c == '`' {
        seq!['`', '`']
    } else {
        seq![c]
    }
}

/// A name as it stands between backticks: every backtick doubled.
pub open spec fn escape(name: Seq<char>) -> Seq<char>
    decreases name.len(),
{
    if name.len() == 0 {
        Seq::<char>::empty()
    } else {
        escape_char(name[0]) + escape(name.skip(1))
    }
}

/// A name in backticks.
pub open spec fn quote(name: Seq<char>) -> Seq<char> {
    seq!['`'] + escape(name) + seq!['`']
}

/// The name that stands between backticks, or `None` where a backtick is not one
/// of a doubled pair.
pub open spec fn unescape(s: Seq<char>) -> Option<Seq<char>>
    decreases s.len(),
{
    if s.len() == 0 {
        Some(Seq::<char>::empty())
    } else if s[0] != '`' {
        match unescape(s.skip(1)) {
            Some(n) => Some(seq![s[0]] + n),
            None => None,
        }
    } else if s.len() >= 2 && s[1] == '`' {
        match unescape(s.skip(2)) {
            Some(n) => Some(seq!['`'] + n),
            None => None,
        }
    } else {
        None
    }
}

/// Whether a text starts and ends with a backtick of its own.
pub open spec fn in_backticks(s: Seq<char>) -> bool {
    s.len() >= 2 && s[0] == '`' && s.last() == '`'
}

/// What stands between the first and the last character.
pub open spec fn between(s: Seq<char>) -> Seq<char> {
    s.subrange(1, s.len() - 1)
}

/// Escaping a name with one more character behind it.
proof fn lemma_escape_push(name: Seq<char>, c: char)
    ensures
        escape(name.push(c)) == escape(name) + escape_char(c),
    decreases name.len(),
{
    let n = name.push(c);
    if name.len() == 0 {
        assert(n.skip(1) =~= Seq::<char>::empty());
        assert(escape(n.skip(1)) == Seq::<char>::empty());
        assert(escape(n) =~= escape_char(c));
        assert(escape(name) + escape_char(c) =~= escape_char(c));
    } else {
        lemma_escape_push(name.skip(1), c);
        assert(n.skip(1) =~= name.skip(1).push(c));
        assert(escape(n) =~= escape(name) + escape_char(c));
    }
}

/// Escaping is undone by unescaping.
pub proof fn lemma_unescape_escape(name: Seq<char>)
    ensures
        unescape(escape(name)) == Some(name),
    decreases name.len(),
{
    if name.len() > 0 {
        let rest = name.skip(1);
        lemma_unescape_escape(rest);
        let e = escape(name);
        if name[0] == '`' {
            assert(e.skip(2) =~= escape(rest));
        } else {
            assert(e.skip(1) =~= escape(rest));
        }
        assert(seq![name[0]] + rest =~= name);
    }
}

/// A text that can be unescaped is the escaped form of what it gives.
pub proof fn lemma_escape_unescape(s: Seq<char>)
    ensures
        unescape(s) matches Some(n) ==> escape(n) == s,
    decreases s.len(),
{
    if s.len() > 0 {
        if s[0] != '`' {
            lemma_escape_unescape(s.skip(1));
            if let Some(n) = unescape(s.skip(1)) {
                let m = seq![s[0]] + n;
                assert(m.skip(1) =~= n);
                assert(escape(m) =~= s);
            }
        } else if s.len() >= 2 && s[1] == '`' {
            lemma_escape_unescape(s.skip(2));
            if let Some(n) = unescape(s.skip(2)) {
                let m = seq!['`'] + n;
                assert(m.skip(1) =~= n);
                assert(escape(m) =~= s);
            }
        }
    }
}

/// A quoted name is in backticks, and what stands between them is the escaped
/// name.
pub proof fn lemma_between_quote(name: Seq<char>)
    ensures
        in_backticks(quote(name)),
        between(quote(name)) == escape(name),
{
    assert(between(quote(name)) =~= escape(name));
}

/// Backtick-quotes a single Spark SQL identifier, doubling embedded backticks.
pub fn quote_ident_str(name: &str) -> (r: String)
    ensures
        r@ == quote(name@),
{
    let s = chars_of(name);
    let mut out: String = String::new();
    out.push('`');
    let mut i: usize = 0;
    proof {
        assert(s@.take(0) =~= Seq::<char>::empty());
        assert(out@ =~= seq!['`'] + escape(s@.take(0)));
    }
    while i < s.len()
        invariant
            i <= s@.len(),
            out@ == seq!['`'] + escape(s@.take(i as int)),
        decreases s@.len() - i,
    {
        proof {
            lemma_escape_push(s@.take(i as int), s@[i as int]);
            assert(s@.take(i + 1) =~= s@.take(i as int).push(s@[i as int]));
        }
        if s[i] == '`' {
            out.push('`');
        }
        out.push(s[i]);
        proof {
            assert(out@ =~= seq!['`'] + escape(s@.take(i + 1)));
        }
        i = i + 1;
    }
    proof {
        assert(s@.take(i as int) =~= s@);
    }
    out.push('`');
    proof {
        assert(out@ =~= quote(name@));
    }
    out
}

/// The name that stands between backticks, or `None` where a backtick is not one
/// of a doubled pair.
pub fn unescape_chars(s: &[char]) -> (r: Option<String>)
    ensures
        match r {
            Some(n) => unescape(s@) == Some(n@),
            None => unescape(s@) is None,
        },
{
    let mut out: String = String::new();
    let mut i: usize = 0;
    proof {
        assert(s@.skip(0) =~= s@);
    }
    while i < s.len()
        invariant
            i <= s@.len(),
            match unescape(s@.skip(i as int)) {
                Some(n) => unescape(s@) == Some(out@ + n),
                None => unescape(s@) is None,
            },
        decreases s@.len() - i,
    {
        let ghost rest = s@.skip(i as int);
        let ghost before = out@;
        if s[i] != '`' {
            out.push(s[i]);
            i = i + 1;
            proof {
                assert(rest.skip(1) =~= s@.skip(i as int));
                if let Some(n) = unescape(s@.skip(i as int)) {
                    assert(before + (seq![rest[0]] + n) =~= out@ + n);
                }
            }
        } else if s.len() - i >= 2 && s[i + 1] == '`' {
            out.push('`');
            i = i + 2;
            proof {
                assert(rest.skip(2) =~= s@.skip(i as int));
                if let Some(n) = unescape(s@.skip(i as int)) {
                    assert(before + (seq!['`'] + n) =~= out@ + n);
                }
            }
        } else {
            return None;
        }
    }
    proof {
        assert(s@.skip(i as int) =~= Seq::<char>::empty());
        assert(out@ + Seq::<char>::empty() =~= out@);
    }
    Some(out)
}

// ---------------------------------------------------------------------------
// Dotted names
// ---------------------------------------------------------------------------

/// The parts with `t` in front of the first of them.
pub open spec fn prepend(t: Seq<char>, parts: Seq<Seq<char>>) -> Seq<Seq<char>> {
    seq![t + parts[0]] + parts.skip(1)
}

/// The parts of a dotted name. Between backticks a dot belongs to the part and a
/// doubled backtick is one backtick; a backtick anywhere else is dropped.
pub open spec fn name_parts(s: Seq<char>, ticked: bool) -> Seq<Seq<char>>
    decreases s.len(),
{
    if s.len() == 0 {
        seq![Seq::<char>::empty()]
    } else if s[0] == '`' {
        if ticked && s.len() >= 2 && s[1] == '`' {
            prepend(seq!['`'], name_parts(s.skip(2), ticked))
        } else {
            name_parts(s.skip(1), !ticked)
        }
    } else if s[0] == '.' && !ticked {
        seq![Seq::<char>::empty()] + name_parts(s.skip(1), ticked)
    } else {
        prepend(seq![s[0]], name_parts(s.skip(1), ticked))
    }
}

/// A dotted name has at least one part.
pub proof fn lemma_name_parts_len(s: Seq<char>, ticked: bool)
    ensures
        name_parts(s, ticked).len() >= 1,
    decreases s.len(),
{
    if s.len() > 0 {
        lemma_name_parts_len(s.skip(1), ticked);
        lemma_name_parts_len(s.skip(1), !ticked);
        if s.len() > 1 {
            lemma_name_parts_len(s.skip(2), ticked);
        }
    }
}

proof fn lemma_prepend_prepend(a: Seq<char>, b: Seq<char>, p: Seq<Seq<char>>)
    requires
        p.len() >= 1,
    ensures
        prepend(a, prepend(b, p)) == prepend(a + b, p),
{
    assert(a + (b + p[0]) =~= (a + b) + p[0]);
    assert(prepend(b, p).skip(1) =~= p.skip(1));
    assert(prepend(a, prepend(b, p)) =~= prepend(a + b, p));
}

/// Splits a possibly backtick-quoted dotted identifier, treating `.` inside
/// backticks as literal and a doubled backtick as an escaped one.
pub fn split_qualified(s: &str) -> (r: Vec<String>)
    ensures
        r@.len() >= 1,
        views(r@) == name_parts(s@, false),
{
    let cs = chars_of(s);
    let mut out: Vec<String> = Vec::new();
    let mut cur: String = String::new();
    let mut ticked: bool = false;
    let mut i: usize = 0;
    proof {
        let p = name_parts(s@, false);
        lemma_name_parts_len(s@, false);
        assert(cs@.skip(0) =~= s@);
        assert(views(out@) + prepend(cur@, p) =~= p) by {
            assert(cur@ + p[0] =~= p[0]);
            assert(views(out@) + prepend(cur@, p) =~= p);
        }
    }
    while i < cs.len()
        invariant
            i <= cs@.len(),
            name_parts(s@, false) == views(out@) + prepend(
                cur@,
                name_parts(cs@.skip(i as int), ticked),
            ),
        decreases cs@.len() - i,
    {
        let ghost rest = cs@.skip(i as int);
        let ghost before = cur@;
        let ghost done = views(out@);
        proof {
            lemma_name_parts_len(rest.skip(1), ticked);
            if rest.len() > 1 {
                lemma_name_parts_len(rest.skip(2), ticked);
            }
        }
        let c: char = cs[i];
        if c == '`' {
            if ticked && cs.len() - i >= 2 && cs[i + 1] == '`' {
                cur.push('`');
                i = i + 2;
                proof {
                    assert(rest.skip(2) =~= cs@.skip(i as int));
                    lemma_prepend_prepend(before, seq!['`'], name_parts(rest.skip(2), ticked));
                    assert(before + seq!['`'] =~= cur@);
                }
            } else {
                ticked = !ticked;
                i = i + 1;
                proof {
                    assert(rest.skip(1) =~= cs@.skip(i as int));
                }
            }
        } else if c == '.' && !ticked {
            let piece = cur;
            cur = String::new();
            proof {
                crate::text::lemma_views_push(out@, piece);
            }
            out.push(piece);
            i = i + 1;
            proof {
                let p = name_parts(rest.skip(1), ticked);
                assert(rest.skip(1) =~= cs@.skip(i as int));
                assert((seq![Seq::<char>::empty()] + p).skip(1) =~= p);
                assert(before + Seq::<char>::empty() =~= before);
                assert(cur@ + p[0] =~= p[0]);
                assert(prepend(cur@, p) =~= p);
                assert(done + prepend(before, seq![Seq::<char>::empty()] + p) =~= views(out@) + p);
            }
        } else {
            cur.push(c);
            i = i + 1;
            proof {
                assert(rest.skip(1) =~= cs@.skip(i as int));
                lemma_prepend_prepend(before, seq![c], name_parts(rest.skip(1), ticked));
                assert(before + seq![c] =~= cur@);
            }
        }
    }
    proof {
        let e = Seq::<char>::empty();
        assert(cs@.skip(i as int) =~= e);
        assert(cur@ + e =~= cur@);
        assert(prepend(cur@, seq![e]) =~= seq![cur@]);
        crate::text::lemma_views_push(out@, cur);
        assert(views(out@) + seq![cur@] =~= views(out@).push(cur@));
    }
    out.push(cur);
    out
}

/// Whether a part has to be quoted to stay in one piece.
pub open spec fn needs_quotes(s: Seq<char>) -> bool {
    s.contains('.') || s.contains('`')
}

/// A part of a dotted name: quoted only where it would otherwise not stay in one
/// piece.
pub open spec fn segment(s: Seq<char>) -> Seq<char> {
    if needs_quotes(s) {
        quote(s)
    } else {
        s
    }
}

/// A part of a dotted name, quoted only where it has to be.
pub fn segment_str(s: &str) -> (r: String)
    ensures
        r@ == segment(s@),
{
    let cs = chars_of(s);
    if contains_char(cs.as_slice(), '.') || contains_char(cs.as_slice(), '`') {
        quote_ident_str(s)
    } else {
        s.to_owned()
    }
}

/// Between backticks, an escaped name and its closing backtick give the name.
proof fn lemma_parts_escaped(name: Seq<char>, rest: Seq<char>)
    requires
        rest.len() == 0 || rest[0] != '`',
    ensures
        name_parts(escape(name) + seq!['`'] + rest, true) == prepend(name, name_parts(rest, false)),
    decreases name.len(),
{
    let t = escape(name) + seq!['`'] + rest;
    lemma_name_parts_len(rest, false);
    let p = name_parts(rest, false);
    if name.len() == 0 {
        assert(t.skip(1) =~= rest);
        assert(name + p[0] =~= p[0]);
        assert(prepend(name, p) =~= p);
    } else {
        let n = name.skip(1);
        lemma_parts_escaped(n, rest);
        let u = escape(n) + seq!['`'] + rest;
        if name[0] == '`' {
            assert(t.skip(2) =~= u);
        } else {
            assert(t.skip(1) =~= u);
        }
        lemma_prepend_prepend(seq![name[0]], n, p);
        assert(seq![name[0]] + n =~= name);
    }
}

/// A quoted name in front of a dot or of nothing is one part.
proof fn lemma_parts_quoted(name: Seq<char>, rest: Seq<char>)
    requires
        rest.len() == 0 || rest[0] != '`',
    ensures
        name_parts(quote(name) + rest, false) == prepend(name, name_parts(rest, false)),
{
    lemma_parts_escaped(name, rest);
    let t = quote(name) + rest;
    assert(t.skip(1) =~= escape(name) + seq!['`'] + rest);
}

/// A name without dots and backticks is read as it stands.
proof fn lemma_parts_plain(name: Seq<char>, rest: Seq<char>)
    requires
        !needs_quotes(name),
    ensures
        name_parts(name + rest, false) == prepend(name, name_parts(rest, false)),
    decreases name.len(),
{
    lemma_name_parts_len(rest, false);
    let p = name_parts(rest, false);
    if name.len() == 0 {
        assert(name + rest =~= rest);
        assert(name + p[0] =~= p[0]);
        assert(prepend(name, p) =~= p);
    } else {
        let n = name.skip(1);
        assert forall|i: int| 0 <= i < n.len() implies n[i] != '.' && n[i] != '`' by {
            assert(name[i + 1] == n[i]);
            assert(name.contains(n[i]));
        }
        assert(name.contains(name[0]));
        lemma_parts_plain(n, rest);
        assert((name + rest).skip(1) =~= n + rest);
        lemma_prepend_prepend(seq![name[0]], n, p);
        assert(seq![name[0]] + n =~= name);
    }
}

/// Joining from the front.
pub proof fn lemma_join_front(parts: Seq<Seq<char>>, sep: Seq<char>)
    requires
        parts.len() >= 2,
    ensures
        join(parts, sep) == parts[0] + sep + join(parts.skip(1), sep),
    decreases parts.len(),
{
    let front = parts.drop_last();
    let tail = parts.skip(1);
    if parts.len() == 2 {
        assert(front.len() == 1);
        assert(join(front, sep) == parts[0]);
        assert(join(tail, sep) == parts[1]);
        assert(join(parts, sep) =~= parts[0] + sep + join(tail, sep));
    } else {
        lemma_join_front(front, sep);
        assert(front.skip(1) =~= tail.drop_last());
        assert(join(parts, sep) =~= parts[0] + sep + join(tail, sep));
    }
}

/// How each part of a name is written: always in backticks, or only where it has
/// to be.
pub open spec fn written(parts: Seq<Seq<char>>, always: bool) -> Seq<Seq<char>> {
    Seq::new(
        parts.len(),
        |i: int|
            if always {
                quote(parts[i])
            } else {
                segment(parts[i])
            },
    )
}

/// Splitting a dotted name gives back the parts that were written into it,
/// whatever the parts hold and whether all of them or only those that need it
/// are in backticks.
pub proof fn law_split_inverts_join(parts: Seq<Seq<char>>, always: bool)
    requires
        parts.len() >= 1,
    ensures
        name_parts(join(written(parts, always), seq!['.']), false) == parts,
    decreases parts.len(),
{
    let w = written(parts, always);
    let e = Seq::<char>::empty();
    let rest = if parts.len() == 1 {
        e
    } else {
        seq!['.'] + join(w.skip(1), seq!['.'])
    };
    let whole = join(w, seq!['.']);
    if parts.len() == 1 {
        assert(whole =~= w[0] + rest);
    } else {
        lemma_join_front(w, seq!['.']);
        assert(whole =~= w[0] + rest);
    }
    if always || needs_quotes(parts[0]) {
        lemma_parts_quoted(parts[0], rest);
    } else {
        lemma_parts_plain(parts[0], rest);
    }
    if parts.len() == 1 {
        assert(parts[0] + e =~= parts[0]);
        assert(prepend(parts[0], seq![e]) =~= parts);
    } else {
        let tail = parts.skip(1);
        law_split_inverts_join(tail, always);
        assert(w.skip(1) =~= written(tail, always));
        assert(rest.skip(1) =~= join(w.skip(1), seq!['.']));
        let p = name_parts(rest, false);
        assert(p == seq![e] + tail);
        assert(p.skip(1) =~= tail);
        assert(parts[0] + e =~= parts[0]);
        assert(prepend(parts[0], p) =~= parts);
    }
}

/// Quoting puts a name in backticks and doubles each backtick in it: a name without one
/// is kept as it stands, a lone backtick becomes two, and a name of two halves is written
/// half by half.
pub proof fn law_quoting(a: Seq<char>, b: Seq<char>)
    ensures
        !a.contains('`') ==> quote(a) == seq!['`'] + a + seq!['`'],
        quote(seq!['`']) == seq!['`', '`', '`', '`'],
        quote(a + b) == quote(a).drop_last() + quote(b).skip(1),
    decreases a.len(),
{
    let t = seq!['`'];
    assert(t.skip(1) =~= Seq::<char>::empty());
    assert(escape(t.skip(1)) == Seq::<char>::empty());
    assert(quote(t) =~= seq!['`', '`', '`', '`']);
    lemma_escape_add(a, b);
    assert(quote(a + b) =~= quote(a).drop_last() + quote(b).skip(1));
    if !a.contains('`') {
        lemma_escape_plain(a);
    }
}

/// Escaping goes character by character.
proof fn lemma_escape_add(a: Seq<char>, b: Seq<char>)
    ensures
        escape(a + b) == escape(a) + escape(b),
    decreases a.len(),
{
    if a.len() == 0 {
        assert(a + b =~= b);
        assert(escape(a) + escape(b) =~= escape(b));
    } else {
        lemma_escape_add(a.skip(1), b);
        assert((a + b).skip(1) =~= a.skip(1) + b);
        assert(escape(a + b) =~= escape(a) + escape(b));
    }
}

/// A name without backticks is not changed by escaping.
proof fn lemma_escape_plain(a: Seq<char>)
    requires
        !a.contains('`'),
    ensures
        escape(a) == a,
    decreases a.len(),
{
    if a.len() > 0 {
        let t = a.skip(1);
        assert(a.contains(a[0]));
        assert forall|i: int| 0 <= i < t.len() implies t[i] != '`' by {
            assert(a[i + 1] == t[i]);
        }
        lemma_escape_plain(t);
        assert(seq![a[0]] + t =~= a);
    }
}

/// What stands in front of the first part stands in front of the joined parts.
proof fn lemma_join_prepend(t: Seq<char>, p: Seq<Seq<char>>, sep: Seq<char>)
    requires
        p.len() >= 1,
    ensures
        join(prepend(t, p), sep) == t + join(p, sep),
{
    let q = prepend(t, p);
    if p.len() == 1 {
        assert(join(q, sep) == q[0]);
        assert(join(p, sep) == p[0]);
    } else {
        lemma_join_front(q, sep);
        lemma_join_front(p, sep);
        assert(q.skip(1) =~= p.skip(1));
        assert(join(q, sep) =~= t + join(p, sep));
    }
}

/// A name without backticks splits at its dots and nowhere else: its parts, joined with
/// dots, give the name back, and no part holds a dot.
pub proof fn law_plain_name_splits_at_dots(s: Seq<char>)
    requires
        !s.contains('`'),
    ensures
        name_parts(s, false).len() >= 1,
        join(name_parts(s, false), seq!['.']) == s,
        forall|i: int|
            0 <= i < name_parts(s, false).len() ==> !(#[trigger] name_parts(s, false)[i]).contains(
                '.',
            ),
    decreases s.len(),
{
    let p = name_parts(s, false);
    let dot = seq!['.'];
    if s.len() == 0 {
        assert(join(p, dot) =~= s);
    } else {
        let t = s.skip(1);
        assert(s.contains(s[0]));
        assert forall|i: int| 0 <= i < t.len() implies t[i] != '`' by {
            assert(s[i + 1] == t[i]);
        }
        law_plain_name_splits_at_dots(t);
        let q = name_parts(t, false);
        assert(seq![s[0]] + t =~= s);
        if s[0] == '.' {
            assert(p == seq![Seq::<char>::empty()] + q);
            lemma_join_front(p, dot);
            assert(p.skip(1) =~= q);
            assert(join(p, dot) =~= s);
            assert forall|i: int| 0 <= i < p.len() implies !(#[trigger] p[i]).contains('.') by {
                if i > 0 {
                    assert(p[i] == q[i - 1]);
                }
            }
        } else {
            assert(p == prepend(seq![s[0]], q));
            lemma_join_prepend(seq![s[0]], q, dot);
            assert forall|i: int| 0 <= i < p.len() implies !(#[trigger] p[i]).contains('.') by {
                if i > 0 {
                    assert(p[i] == q[i]);
                } else {
                    let w = p[0];
                    assert(w == seq![s[0]] + q[0]);
                    assert forall|k: int| 0 <= k < w.len() implies w[k] != '.' by {
                        if k > 0 {
                            assert(w[k] == q[0][k - 1]);
                            assert(!q[0].contains('.'));
                        }
                    }
                }
            }
        }
    }
}

/// Two lists of parts, where the last of the one and the first of the other are one part.
pub open spec fn glued(a: Seq<Seq<char>>, b: Seq<Seq<char>>) -> Seq<Seq<char>> {
    a.drop_last() + seq![a.last() + b[0]] + b.skip(1)
}

/// A text without backticks in front of another.
proof fn lemma_parts_glue(p: Seq<char>, t: Seq<char>)
    requires
        !p.contains('`'),
    ensures
        name_parts(p + t, false) == glued(name_parts(p, false), name_parts(t, false)),
    decreases p.len(),
{
    let q = name_parts(t, false);
    lemma_name_parts_len(t, false);
    let e = Seq::<char>::empty();
    if p.len() == 0 {
        assert(p + t =~= t);
        let a = name_parts(p, false);
        assert(a == seq![e]);
        assert(e + q[0] =~= q[0]);
        assert(glued(a, q) =~= q);
    } else {
        let r = p.skip(1);
        assert(p.contains(p[0]));
        assert forall|i: int| 0 <= i < r.len() implies r[i] != '`' by {
            assert(p[i + 1] == r[i]);
        }
        lemma_parts_glue(r, t);
        lemma_name_parts_len(r, false);
        let a = name_parts(r, false);
        assert((p + t).skip(1) =~= r + t);
        assert((p + t)[0] == p[0]);
        let whole = name_parts(p + t, false);
        if p[0] == '.' {
            assert(whole =~= glued(seq![e] + a, q));
        } else {
            let c = seq![p[0]];
            assert(whole == prepend(c, glued(a, q)));
            let pa = prepend(c, a);
            if a.len() == 1 {
                assert(c + (a[0] + q[0]) =~= (c + a[0]) + q[0]);
            }
            assert(pa.len() == a.len());
            assert(whole =~= glued(pa, q));
        }
    }
}

/// A stretch in backticks belongs to the part that it stands in, dots and all: between a
/// text without backticks and one that starts with none, the name that was quoted joins
/// the last part before it and the first behind it.
pub proof fn law_quoted_stretch(p: Seq<char>, name: Seq<char>, rest: Seq<char>)
    requires
        !p.contains('`'),
        rest.len() == 0 || rest[0] != '`',
    ensures
        ({
            let a = name_parts(p, false);
            let b = name_parts(rest, false);
            name_parts(p + quote(name) + rest, false) == a.drop_last() + seq![
                a.last() + name + b[0],
            ] + b.skip(1)
        }),
{
    let a = name_parts(p, false);
    let b = name_parts(rest, false);
    lemma_name_parts_len(p, false);
    lemma_name_parts_len(rest, false);
    lemma_parts_quoted(name, rest);
    lemma_parts_glue(p, quote(name) + rest);
    assert(p + quote(name) + rest =~= p + (quote(name) + rest));
    let q = prepend(name, b);
    assert(q.skip(1) =~= b.skip(1));
    assert(a.last() + (name + b[0]) =~= a.last() + name + b[0]);
}

/// A backtick that is never closed takes the rest of the name into its part.
pub proof fn law_unclosed_stretch(p: Seq<char>, name: Seq<char>)
    requires
        !p.contains('`'),
    ensures
        ({
            let a = name_parts(p, false);
            name_parts(p + quote(name).drop_last(), false) == a.drop_last() + seq![
                a.last() + name,
            ]
        }),
{
    let a = name_parts(p, false);
    let open = quote(name).drop_last();
    assert(open =~= seq!['`'] + escape(name));
    lemma_name_parts_len(p, false);
    lemma_parts_unclosed(name);
    assert(open.skip(1) =~= escape(name));
    assert(name_parts(open, false) == seq![name]);
    lemma_parts_glue(p, open);
    assert(seq![name].skip(1) =~= Seq::<Seq<char>>::empty());
    assert(glued(a, seq![name]) =~= a.drop_last() + seq![a.last() + name]);
}

/// An escaped name that no backtick closes is one part.
proof fn lemma_parts_unclosed(name: Seq<char>)
    ensures
        name_parts(escape(name), true) == seq![name],
    decreases name.len(),
{
    let t = escape(name);
    let e = Seq::<char>::empty();
    if name.len() == 0 {
        assert(name =~= e);
        assert(name_parts(t, true) =~= seq![name]);
    } else {
        let n = name.skip(1);
        lemma_parts_unclosed(n);
        if name[0] == '`' {
            assert(t.skip(2) =~= escape(n));
        } else {
            assert(t.skip(1) =~= escape(n));
        }
        assert(seq![name[0]] + n =~= name);
        assert(seq![n].skip(1) =~= Seq::<Seq<char>>::empty());
        assert(prepend(seq![name[0]], seq![n]) =~= seq![name]);
    }
}

/// A part of a built name is written as it stands exactly where it holds neither a dot
/// nor a backtick, and in backticks everywhere else; always in backticks where that is
/// asked for.
pub proof fn law_parts_are_quoted_where_needed(parts: Seq<Seq<char>>, i: int)
    requires
        0 <= i < parts.len(),
    ensures
        written(parts, false).len() == parts.len(),
        written(parts, true).len() == parts.len(),
        written(parts, true)[i] == quote(parts[i]),
        written(parts, false)[i] == (if parts[i].contains('.') || parts[i].contains('`') {
            quote(parts[i])
        } else {
            parts[i]
        }),
{
}

/// The functions on identifiers give what they come to.
pub proof fn law_operations(s: &str, parts: Vec<String>, quoted: String)
    ensures
        call_ensures(split_qualified, (s,), parts) ==> views(parts@) == name_parts(s@, false),
        call_ensures(quote_ident_str, (s,), quoted) ==> quoted@ == quote(s@),
{
}

} // verus!
