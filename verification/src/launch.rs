//! Where `spark-submit` is looked for, and the arguments that it is started with.

use vstd::prelude::*;
use vstd::string::*;

use crate::text::{
    chars_of, has_prefix, join, lemma_split_join, lemma_views_push, split_chars, split_on, starts_with, views,
};

verus! {

/// A string that may be absent, by its text.
pub open spec fn opt_view(s: Option<String>) -> Option<Seq<char>> {
    match s {
        Some(t) => Some(t@),
        None => None,
    }
}

/// A string that may be absent, by its text.
pub open spec fn str_view(s: Option<&str>) -> Option<Seq<char>> {
    match s {
        Some(t) => Some(t@),
        None => None,
    }
}

/// A borrow of a string that may be absent.
pub fn opt_str(s: &Option<String>) -> (r: Option<&str>)
    ensures
        str_view(r) == opt_view(*s),
{
    match s {
        Some(t) => Some(t.as_str()),
        None => None,
    }
}

/// A copy of a string that may be absent.
pub fn opt_copy(s: Option<&str>) -> (r: Option<String>)
    ensures
        opt_view(r) == str_view(s),
{
    match s {
        Some(t) => Some(t.to_owned()),
        None => None,
    }
}

// ---------------------------------------------------------------------------
// Candidates
// ---------------------------------------------------------------------------

/// A relative path below a directory.
pub open spec fn below(dir: Seq<char>, name: Seq<char>) -> Seq<char> {
    if dir.len() == 0 || dir.last() == '/' {
        dir + name
    } else {
        dir + "/"@ + name
    }
}

/// A relative path below a directory.
pub fn path_below(dir: &str, name: &str) -> (r: String)
    ensures
        r@ == below(dir@, name@),
{
    let cs = chars_of(dir);
    let mut out: String = dir.to_owned();
    if cs.len() > 0 && cs[cs.len() - 1] != '/' {
        out.append("/");
    }
    out.append(name);
    out
}

/// The paths below each of several directories.
pub open spec fn below_each(dirs: Seq<Seq<char>>, name: Seq<char>) -> Seq<Seq<char>> {
    Seq::new(dirs.len(), |i: int| below(dirs[i], name))
}

/// The paths that may be `spark-submit`, in the order in which they are tried. An
/// explicit path is the only one. Otherwise it is the one of the Spark home, and
/// then one for each directory of the search path, whose directories are set apart
/// by colons.
pub open spec fn candidates(
    submit: Option<Seq<char>>,
    home: Option<Seq<char>>,
    path: Option<Seq<char>>,
) -> Seq<Seq<char>> {
    match submit {
        Some(p) => seq![p],
        None => {
            let first = match home {
                Some(h) => seq![below(h, "bin/spark-submit"@)],
                None => Seq::<Seq<char>>::empty(),
            };
            let others = match path {
                Some(p) => below_each(split_on(p, ':'), "spark-submit"@),
                None => Seq::<Seq<char>>::empty(),
            };
            first + others
        },
    }
}

/// The paths that may be `spark-submit`, in the order in which they are tried.
pub fn list_candidates(submit: Option<&str>, home: Option<&str>, path: Option<&str>) -> (r: Vec<
    String,
>)
    ensures
        views(r@) == candidates(str_view(submit), str_view(home), str_view(path)),
{
    let mut out: Vec<String> = Vec::new();
    if let Some(p) = submit {
        let s: String = p.to_owned();
        proof {
            lemma_views_push(out@, s);
        }
        out.push(s);
        proof {
            assert(views(out@) =~= seq![p@]);
        }
        return out;
    }
    if let Some(h) = home {
        let s = path_below(h, "bin/spark-submit");
        proof {
            lemma_views_push(out@, s);
        }
        out.push(s);
    }
    let ghost first = views(out@);
    proof {
        assert(first =~= match str_view(home) {
            Some(h) => seq![below(h, "bin/spark-submit"@)],
            None => Seq::<Seq<char>>::empty(),
        });
    }
    if let Some(p) = path {
        let cs = chars_of(p);
        let dirs = split_chars(cs.as_slice(), ':');
        let ghost all = below_each(views(dirs@), "spark-submit"@);
        let mut i: usize = 0;
        proof {
            assert(first + all.take(0) =~= first);
        }
        while i < dirs.len()
            invariant
                i <= dirs@.len(),
                all == below_each(views(dirs@), "spark-submit"@),
                views(out@) == first + all.take(i as int),
            decreases dirs@.len() - i,
        {
            let s = path_below(dirs[i].as_str(), "spark-submit");
            proof {
                lemma_views_push(out@, s);
                assert(first + all.take(i + 1) =~= (first + all.take(i as int)).push(s@));
            }
            out.push(s);
            i = i + 1;
        }
        proof {
            assert(all.take(i as int) =~= all);
        }
    } else {
        proof {
            assert(first + Seq::<Seq<char>>::empty() =~= first);
        }
    }
    out
}

// ---------------------------------------------------------------------------
// Arguments
// ---------------------------------------------------------------------------

/// A flag with its value where it has one.
pub open spec fn flag(name: Seq<char>, value: Option<Seq<char>>) -> Seq<Seq<char>> {
    match value {
        Some(v) => seq![name, v],
        None => Seq::<Seq<char>>::empty(),
    }
}

/// Each setting behind a `--conf` of its own, in the given order.
pub open spec fn conf_args(confs: Seq<Seq<char>>) -> Seq<Seq<char>>
    decreases confs.len(),
{
    if confs.len() == 0 {
        Seq::<Seq<char>>::empty()
    } else {
        conf_args(confs.drop_last()) + seq!["--conf"@, confs.last()]
    }
}

/// Whether a setting starts with the given key.
pub open spec fn sets(confs: Seq<Seq<char>>, key: Seq<char>) -> bool {
    exists|i: int| 0 <= i < confs.len() && has_prefix(#[trigger] confs[i], key)
}

/// A setting that holds unless the user has one with the same key.
pub open spec fn unless_set(confs: Seq<Seq<char>>, key: Seq<char>, setting: Seq<char>) -> Seq<
    Seq<char>,
> {
    if sets(confs, key) {
        Seq::<Seq<char>>::empty()
    } else {
        seq!["--conf"@, setting]
    }
}

/// Appends a flag and its value.
pub fn push_pair(out: &mut Vec<String>, name: &str, value: &str)
    ensures
        views(final(out)@) == views(old(out)@) + seq![name@, value@],
{
    let a: String = name.to_owned();
    let b: String = value.to_owned();
    let ghost before = views(out@);
    proof {
        lemma_views_push(out@, a);
        lemma_views_push(out@.push(a), b);
    }
    out.push(a);
    out.push(b);
    proof {
        assert(before.push(name@).push(value@) =~= before + seq![name@, value@]);
    }
}

/// Appends a flag and its value where it has one.
pub fn push_flag(out: &mut Vec<String>, name: &str, value: Option<&str>)
    ensures
        views(final(out)@) == views(old(out)@) + flag(name@, str_view(value)),
{
    match value {
        Some(v) => push_pair(out, name, v),
        None => {
            proof {
                assert(views(out@) + Seq::<Seq<char>>::empty() =~= views(out@));
            }
        },
    }
}

/// Appends the user's settings.
pub fn push_confs(out: &mut Vec<String>, confs: &Vec<String>)
    ensures
        views(final(out)@) == views(old(out)@) + conf_args(views(confs@)),
{
    let ghost before = views(out@);
    let ghost all = views(confs@);
    let mut i: usize = 0;
    proof {
        assert(all.take(0) =~= Seq::<Seq<char>>::empty());
        assert(before + conf_args(all.take(0)) =~= before);
    }
    while i < confs.len()
        invariant
            i <= confs@.len(),
            all == views(confs@),
            views(out@) == before + conf_args(all.take(i as int)),
        decreases confs@.len() - i,
    {
        push_pair(out, "--conf", confs[i].as_str());
        proof {
            let c = confs@[i as int]@;
            assert(all.take(i + 1).drop_last() =~= all.take(i as int));
            assert(all.take(i + 1).last() == c);
            let pair = seq!["--conf"@, c];
            assert(before + conf_args(all.take(i as int)) + pair =~= before + (conf_args(
                all.take(i as int),
            ) + pair));
        }
        i = i + 1;
    }
    proof {
        assert(all.take(i as int) =~= all);
    }
}

/// Whether a setting starts with the given key.
pub fn has_conf(confs: &Vec<String>, key: &str) -> (r: bool)
    ensures
        r == sets(views(confs@), key@),
{
    let ghost all = views(confs@);
    let mut i: usize = 0;
    while i < confs.len()
        invariant
            i <= confs@.len(),
            all == views(confs@),
            forall|k: int| 0 <= k < i ==> !has_prefix(#[trigger] all[k], key@),
        decreases confs@.len() - i,
    {
        let cs = chars_of(confs[i].as_str());
        if starts_with(cs.as_slice(), key) {
            proof {
                assert(has_prefix(all[i as int], key@));
            }
            return true;
        }
        i = i + 1;
    }
    false
}

/// Appends a setting unless the user has one with the same key.
pub fn push_unless_set(out: &mut Vec<String>, confs: &Vec<String>, key: &str, setting: &str)
    ensures
        views(final(out)@) == views(old(out)@) + unless_set(views(confs@), key@, setting@),
{
    if has_conf(confs, key) {
        proof {
            assert(views(out@) + Seq::<Seq<char>>::empty() =~= views(out@));
        }
    } else {
        push_pair(out, "--conf", setting);
    }
}

// ---------------------------------------------------------------------------
// The search
// ---------------------------------------------------------------------------

/// A program to start and its arguments.
pub struct Spawn {
    pub program: String,
    pub args: Vec<String>,
}

/// A path that has to be looked at, the paths that remain, what to start the
/// program with, and what to say where no path is a file.
pub struct Probe {
    pub path: String,
    pub rest: Vec<String>,
    pub args: Vec<String>,
    pub failure: String,
}

/// What to do next to find a program: look whether a path is a file, start the
/// program, or give up.
pub enum Step {
    Probe(Probe),
    Spawn(Spawn),
    Fail(String),
}

/// A step of a search as the model has it.
pub enum StepView {
    Probe { path: Seq<char>, rest: Seq<Seq<char>>, args: Seq<Seq<char>>, failure: Seq<char> },
    Spawn { program: Seq<char>, args: Seq<Seq<char>> },
    Fail(Seq<char>),
}

impl View for Step {
    type V = StepView;

    open spec fn view(&self) -> StepView {
        match self {
            Step::Probe(p) => StepView::Probe {
                path: p.path@,
                rest: views(p.rest@),
                args: views(p.args@),
                failure: p.failure@,
            },
            Step::Spawn(s) => StepView::Spawn { program: s.program@, args: views(s.args@) },
            Step::Fail(e) => StepView::Fail(e@),
        }
    }
}

/// The search through the given paths: the first of them is looked at next.
pub open spec fn searching(
    paths: Seq<Seq<char>>,
    args: Seq<Seq<char>>,
    failure: Seq<char>,
) -> StepView {
    if paths.len() == 0 {
        StepView::Fail(failure)
    } else {
        StepView::Probe { path: paths[0], rest: paths.skip(1), args, failure }
    }
}

/// Starts a search, or goes on with one.
pub fn search(paths: Vec<String>, args: Vec<String>, failure: String) -> (r: Step)
    ensures
        r@ == searching(views(paths@), views(args@), failure@),
{
    let mut rest = paths;
    if rest.len() == 0 {
        return Step::Fail(failure);
    }
    let path = rest.remove(0);
    proof {
        assert(views(rest@) =~= views(paths@).skip(1));
    }
    Step::Probe(Probe { path, rest, args, failure })
}

impl Probe {
    /// Goes on once it is known whether the path is a file: that file is started, or
    /// the next path is looked at.
    pub fn answer(self, is_file: bool) -> (r: Step)
        ensures
            r@ == if is_file {
                StepView::Spawn { program: self.path@, args: views(self.args@) }
            } else {
                searching(views(self.rest@), views(self.args@), self.failure@)
            },
    {
        if is_file {
            Step::Spawn(Spawn { program: self.path, args: self.args })
        } else {
            search(self.rest, self.args, self.failure)
        }
    }
}

// ---------------------------------------------------------------------------
// Laws
// ---------------------------------------------------------------------------

/// Where a search ends that is told of each path whether it is a file.
pub open spec fn search_end(step: StepView, is_file: spec_fn(Seq<char>) -> bool) -> StepView
    decreases
            match step {
                StepView::Probe { path, rest, args, failure } => rest.len() + 1,
                _ => 0,
            },
{
    match step {
        StepView::Probe { path, rest, args, failure } => if is_file(path) {
            StepView::Spawn { program: path, args }
        } else {
            search_end(searching(rest, args, failure), is_file)
        },
        _ => step,
    }
}

/// A search ends with the first path that is a file, and fails only where none is.
pub proof fn law_first_file_is_started(
    paths: Seq<Seq<char>>,
    args: Seq<Seq<char>>,
    failure: Seq<char>,
    is_file: spec_fn(Seq<char>) -> bool,
)
    ensures
        forall|i: int|
            0 <= i < paths.len() && is_file(#[trigger] paths[i]) && (forall|j: int|
                0 <= j < i ==> !is_file(#[trigger] paths[j])) ==> search_end(
                searching(paths, args, failure),
                is_file,
            ) == (StepView::Spawn { program: paths[i], args }),
        (forall|i: int| 0 <= i < paths.len() ==> !is_file(#[trigger] paths[i])) ==> search_end(
            searching(paths, args, failure),
            is_file,
        ) == StepView::Fail(failure),
    decreases paths.len(),
{
    if paths.len() > 0 {
        let rest = paths.skip(1);
        law_first_file_is_started(rest, args, failure, is_file);
        let end = search_end(searching(paths, args, failure), is_file);
        assert forall|i: int|
            0 <= i < paths.len() && is_file(#[trigger] paths[i]) && (forall|j: int|
                0 <= j < i ==> !is_file(#[trigger] paths[j])) implies end == (StepView::Spawn {
            program: paths[i],
            args,
        }) by {
            if i > 0 {
                assert(!is_file(paths[0]));
                assert(rest[i - 1] == paths[i]);
                assert forall|j: int| 0 <= j < i - 1 implies !is_file(#[trigger] rest[j]) by {
                    assert(rest[j] == paths[j + 1]);
                }
            }
        }
        if forall|i: int| 0 <= i < paths.len() ==> !is_file(#[trigger] paths[i]) {
            assert(!is_file(paths[0]));
            assert forall|j: int| 0 <= j < rest.len() implies !is_file(#[trigger] rest[j]) by {
                assert(rest[j] == paths[j + 1]);
            }
        }
    }
}

/// An explicit path is the last word: where it is no file the search fails, whatever
/// the Spark home and the search path hold.
pub proof fn law_explicit_path_is_final(
    submit: Seq<char>,
    home: Option<Seq<char>>,
    path: Option<Seq<char>>,
    args: Seq<Seq<char>>,
    failure: Seq<char>,
    is_file: spec_fn(Seq<char>) -> bool,
)
    ensures
        search_end(searching(candidates(Some(submit), home, path), args, failure), is_file) == (
        if is_file(submit) {
            StepView::Spawn { program: submit, args }
        } else {
            StepView::Fail(failure)
        }),
{
    let paths = candidates(Some(submit), home, path);
    law_first_file_is_started(paths, args, failure, is_file);
    assert(paths[0] == submit);
    if !is_file(submit) {
        assert forall|i: int| 0 <= i < paths.len() implies !is_file(#[trigger] paths[i]) by {}
    }
}

/// A Spark home comes before the search path.
pub proof fn law_home_comes_first(
    home: Seq<char>,
    path: Option<Seq<char>>,
    args: Seq<Seq<char>>,
    failure: Seq<char>,
    is_file: spec_fn(Seq<char>) -> bool,
)
    requires
        is_file(below(home, "bin/spark-submit"@)),
    ensures
        search_end(searching(candidates(None, Some(home), path), args, failure), is_file) == (
        StepView::Spawn { program: below(home, "bin/spark-submit"@), args }),
{
    let paths = candidates(None, Some(home), path);
    law_first_file_is_started(paths, args, failure, is_file);
    assert(paths[0] == below(home, "bin/spark-submit"@));
}

/// The user's settings stand in the arguments one behind the other, each behind its
/// `--conf`.
pub proof fn law_settings_in_order(confs: Seq<Seq<char>>, k: int)
    requires
        0 <= k < confs.len(),
    ensures
        conf_args(confs).len() == 2 * confs.len(),
        conf_args(confs)[2 * k] == "--conf"@,
        conf_args(confs)[2 * k + 1] == confs[k],
    decreases confs.len(),
{
    let front = confs.drop_last();
    lemma_conf_args_len(front);
    if k < front.len() {
        law_settings_in_order(front, k);
    }
}

/// Each setting takes two arguments.
pub proof fn lemma_conf_args_len(confs: Seq<Seq<char>>)
    ensures
        conf_args(confs).len() == 2 * confs.len(),
    decreases confs.len(),
{
    if confs.len() > 0 {
        lemma_conf_args_len(confs.drop_last());
    }
}

/// The user's settings and those that hold unless the user has them.
pub open spec fn all_confs(confs: Seq<Seq<char>>, level: Seq<char>) -> Seq<Seq<char>> {
    let levels = if sets(confs, "spark.log.level="@) {
        Seq::<Seq<char>>::empty()
    } else {
        seq![level]
    };
    let catalogs = if sets(confs, "spark.sql.catalogImplementation="@) {
        Seq::<Seq<char>>::empty()
    } else {
        seq!["spark.sql.catalogImplementation=in-memory"@]
    };
    confs + levels + catalogs
}

/// The arguments of two lists of settings follow each other.
proof fn lemma_conf_args_add(a: Seq<Seq<char>>, b: Seq<Seq<char>>)
    ensures
        conf_args(a + b) == conf_args(a) + conf_args(b),
    decreases b.len(),
{
    if b.len() == 0 {
        assert(a + b =~= a);
        assert(conf_args(a) + conf_args(b) =~= conf_args(a));
    } else {
        let front = b.drop_last();
        lemma_conf_args_add(a, front);
        assert((a + b).drop_last() =~= a + front);
        let pair = seq!["--conf"@, b.last()];
        assert(conf_args(a) + conf_args(front) + pair =~= conf_args(a) + (conf_args(front)
            + pair));
    }
}

/// The settings in the arguments are the user's, in order, and then each default whose
/// key the user does not set.
pub proof fn law_defaults_fill_in(confs: Seq<Seq<char>>, level: Seq<char>)
    ensures
        conf_args(confs) + unless_set(confs, "spark.log.level="@, level) + unless_set(
            confs,
            "spark.sql.catalogImplementation="@,
            "spark.sql.catalogImplementation=in-memory"@,
        ) == conf_args(all_confs(confs, level)),
{
    let e = Seq::<Seq<char>>::empty();
    let catalog = "spark.sql.catalogImplementation=in-memory"@;
    let levels = if sets(confs, "spark.log.level="@) {
        e
    } else {
        seq![level]
    };
    let catalogs = if sets(confs, "spark.sql.catalogImplementation="@) {
        e
    } else {
        seq![catalog]
    };
    lemma_conf_args_add(confs + levels, catalogs);
    lemma_conf_args_add(confs, levels);
    assert(conf_args(e) =~= e);
    lemma_conf_args_one(level);
    lemma_conf_args_one(catalog);
}

/// The arguments of one setting.
proof fn lemma_conf_args_one(c: Seq<char>)
    ensures
        conf_args(seq![c]) == seq!["--conf"@, c],
{
    assert(seq![c].drop_last() =~= Seq::<Seq<char>>::empty());
    assert(conf_args(seq![c].drop_last()) =~= Seq::<Seq<char>>::empty());
    assert(conf_args(seq![c]) =~= seq!["--conf"@, c]);
}

/// A path below a directory is the two with one slash between them, and the path alone
/// below no directory.
pub proof fn law_path_below(dir: Seq<char>, name: Seq<char>)
    ensures
        dir.len() == 0 ==> below(dir, name) == name,
        dir.len() > 0 && dir.last() != '/' ==> below(dir, name) == dir + seq!['/'] + name,
        dir.len() > 0 && dir.last() == '/' ==> below(dir, name) == dir + name,
{
    reveal_strlit("/");
    assert("/"@ =~= seq!['/']);
    if dir.len() == 0 {
        assert(dir + name =~= name);
    }
}

/// Where `spark-submit` is looked for: at an explicit path and nowhere else; or else at
/// `bin/spark-submit` below the Spark home, and then at `spark-submit` below each directory
/// of the search path, in its order.
pub proof fn law_candidates(
    submit: Seq<char>,
    home: Seq<char>,
    dirs: Seq<Seq<char>>,
    any_home: Option<Seq<char>>,
    any_path: Option<Seq<char>>,
)
    requires
        dirs.len() > 0,
        forall|i: int| 0 <= i < dirs.len() ==> !(#[trigger] dirs[i]).contains(':'),
    ensures
        candidates(Some(submit), any_home, any_path) == seq![submit],
        candidates(None, None, None).len() == 0,
        candidates(None, Some(home), None) == seq![below(home, "bin/spark-submit"@)],
        candidates(None, None, Some(join(dirs, seq![':']))) == Seq::new(
            dirs.len(),
            |i: int| below(dirs[i], "spark-submit"@),
        ),
        candidates(None, Some(home), any_path) == candidates(None, Some(home), None) + candidates(
            None,
            None,
            any_path,
        ),
{
    let e = Seq::<Seq<char>>::empty();
    lemma_split_join(dirs, ':');
    let c = candidates(None, None, Some(join(dirs, seq![':'])));
    assert(c =~= Seq::new(dirs.len(), |i: int| below(dirs[i], "spark-submit"@)));
    assert(candidates(None, Some(home), None) =~= seq![below(home, "bin/spark-submit"@)]);
    assert(candidates(None, Some(home), any_path) =~= candidates(None, Some(home), None)
        + candidates(None, None, any_path));
}

/// Whether a setting starts with a key, character by character.
pub open spec fn starts_as(setting: Seq<char>, key: Seq<char>) -> bool {
    setting.len() >= key.len() && forall|i: int|
        0 <= i < key.len() ==> #[trigger] setting[i] == key[i]
}

/// A default stands among the arguments exactly where no setting of the user's starts with
/// its key.
pub proof fn law_default_stands_alone(confs: Seq<Seq<char>>, key: Seq<char>, setting: Seq<char>)
    ensures
        (exists|i: int| 0 <= i < confs.len() && starts_as(#[trigger] confs[i], key)) ==> unless_set(
            confs,
            key,
            setting,
        ).len() == 0,
        (forall|i: int| 0 <= i < confs.len() ==> !starts_as(#[trigger] confs[i], key))
            ==> unless_set(confs, key, setting) == seq!["--conf"@, setting],
{
    assert forall|i: int| 0 <= i < confs.len() implies has_prefix(#[trigger] confs[i], key)
        == starts_as(confs[i], key) by {
        let c = confs[i];
        if starts_as(c, key) {
            assert(c.take(key.len() as int) =~= key);
        }
        if has_prefix(c, key) {
            assert forall|j: int| 0 <= j < key.len() implies #[trigger] c[j] == key[j] by {
                assert(c.take(key.len() as int)[j] == c[j]);
            }
        }
    }
    if exists|i: int| 0 <= i < confs.len() && starts_as(#[trigger] confs[i], key) {
        let i = choose|i: int| 0 <= i < confs.len() && starts_as(#[trigger] confs[i], key);
        assert(has_prefix(confs[i], key));
    }
}

/// A flag with a value is passed with the value behind it, whatever the value is, and one
/// without a value is not passed.
pub proof fn law_flags(name: Seq<char>, value: Seq<char>)
    ensures
        flag(name, Some(value)) == seq![name, value],
        flag(name, None).len() == 0,
{
}

/// A string that may be absent is its text where it is there.
pub proof fn law_optional_text(s: String)
    ensures
        opt_view(Some(s)) == Some(s@),
        opt_view(None) is None,
{
}

/// What follows word of a path: a file is started with the arguments; otherwise the next
/// path is looked at, and where there is none the search fails in the words it was given.
pub proof fn law_probe_answer(probe: Probe, is_file: bool, r: Step)
    requires
        call_ensures(Probe::answer, (probe, is_file), r),
    ensures
        is_file ==> (r matches Step::Spawn(s) && s.program@ == probe.path@ && views(s.args@)
            == views(probe.args@)),
        !is_file && probe.rest@.len() > 0 ==> (r matches Step::Probe(p) && {
            &&& p.path@ == views(probe.rest@)[0]
            &&& views(p.rest@) == views(probe.rest@).skip(1)
            &&& views(p.args@) == views(probe.args@)
            &&& p.failure@ == probe.failure@
        }),
        !is_file && probe.rest@.len() == 0 ==> (r matches Step::Fail(e) && e@ == probe.failure@),
{
}

} // verus!
