//! The connection options of a call, and the arguments that they give.

use vstd::prelude::*;
use vstd::string::*;

use crate::json::{json_views, Json, JsonView};
use crate::launch::{
    all_confs, candidates, conf_args, flag, law_default_stands_alone, law_defaults_fill_in,
    law_settings_in_order, lemma_conf_args_len, list_candidates, opt_copy, opt_str, opt_view,
    push_confs, push_flag, push_pair, push_unless_set, search, searching, starts_as, str_view,
    unless_set, Step,
};
use crate::text::{lemma_views_push, views};

verus! {

/// What the environment says: the variables `STRYKE_SPARK_SUBMIT`, `SPARK_HOME` and
/// `PATH`.
pub struct Env {
    pub submit: Option<String>,
    pub home: Option<String>,
    pub path: Option<String>,
}

/// The environment as the model has it.
pub struct EnvView {
    pub submit: Option<Seq<char>>,
    pub home: Option<Seq<char>>,
    pub path: Option<Seq<char>>,
}

impl View for Env {
    type V = EnvView;

    open spec fn view(&self) -> EnvView {
        EnvView {
            submit: opt_view(self.submit),
            home: opt_view(self.home),
            path: opt_view(self.path),
        }
    }
}

/// The connection options of a call.
pub struct SparkOpts {
    pub master: Option<String>,
    pub app_name: Option<String>,
    pub deploy_mode: Option<String>,
    pub packages: Option<String>,
    pub jars: Option<String>,
    pub confs: Vec<String>,
    pub database: Option<String>,
    pub spark_submit: Option<String>,
    pub spark_home: Option<String>,
}

/// The connection options as the model has them.
pub struct SparkOptsView {
    pub master: Option<Seq<char>>,
    pub app_name: Option<Seq<char>>,
    pub deploy_mode: Option<Seq<char>>,
    pub packages: Option<Seq<char>>,
    pub jars: Option<Seq<char>>,
    pub confs: Seq<Seq<char>>,
    pub database: Option<Seq<char>>,
    pub spark_submit: Option<Seq<char>>,
    pub spark_home: Option<Seq<char>>,
}

impl View for SparkOpts {
    type V = SparkOptsView;

    open spec fn view(&self) -> SparkOptsView {
        SparkOptsView {
            master: opt_view(self.master),
            app_name: opt_view(self.app_name),
            deploy_mode: opt_view(self.deploy_mode),
            packages: opt_view(self.packages),
            jars: opt_view(self.jars),
            confs: views(self.confs@),
            database: opt_view(self.database),
            spark_submit: opt_view(self.spark_submit),
            spark_home: opt_view(self.spark_home),
        }
    }
}

/// The strings among the items of a list, in their order.
pub open spec fn strings_in(items: Seq<JsonView>) -> Seq<Seq<char>>
    decreases items.len(),
{
    if items.len() == 0 {
        Seq::<Seq<char>>::empty()
    } else {
        let front = strings_in(items.drop_last());
        match items.last().as_str() {
            Some(s) => front.push(s),
            None => front,
        }
    }
}

/// The first of two values that is there.
pub open spec fn either(a: Option<Seq<char>>, b: Option<Seq<char>>) -> Option<Seq<char>> {
    match a {
        Some(s) => Some(s),
        None => b,
    }
}

/// The connection options that a JSON object gives. A field that is missing or no
/// string is not set. `spark_submit` and `spark_home` fall back on the environment.
pub open spec fn options_of(opts: JsonView, env: EnvView) -> SparkOptsView {
    SparkOptsView {
        master: opts.str_at("master"@),
        app_name: opts.str_at("app_name"@),
        deploy_mode: opts.str_at("deploy_mode"@),
        packages: opts.str_at("packages"@),
        jars: opts.str_at("jars"@),
        confs: match opts.array_at("confs"@) {
            Some(items) => strings_in(items),
            None => Seq::<Seq<char>>::empty(),
        },
        database: opts.str_at("database"@),
        spark_submit: either(opts.str_at("spark_submit"@), env.submit),
        spark_home: either(opts.str_at("spark_home"@), env.home),
    }
}

/// The strings among the items of a list, in their order.
fn collect_strings(items: &Vec<Json>) -> (r: Vec<String>)
    ensures
        views(r@) == strings_in(json_views(items@)),
{
    let ghost all = json_views(items@);
    let mut out: Vec<String> = Vec::new();
    let mut i: usize = 0;
    proof {
        assert(all.take(0) =~= Seq::<JsonView>::empty());
        assert(views(out@) =~= strings_in(all.take(0)));
    }
    while i < items.len()
        invariant
            i <= items@.len(),
            all == json_views(items@),
            views(out@) == strings_in(all.take(i as int)),
        decreases items@.len() - i,
    {
        proof {
            assert(all.take(i + 1).drop_last() =~= all.take(i as int));
            assert(all.take(i + 1).last() == items@[i as int]@);
        }
        if let Some(s) = items[i].as_str() {
            let t: String = s.to_owned();
            proof {
                lemma_views_push(out@, t);
            }
            out.push(t);
        }
        i = i + 1;
    }
    proof {
        assert(all.take(i as int) =~= all);
    }
    out
}

/// A string under a key, as a value of its own.
fn own_str(opts: &Json, key: &str) -> (r: Option<String>)
    ensures
        opt_view(r) == opts@.str_at(key@),
{
    opt_copy(opts.str_at(key))
}

/// A string under a key, or else what the environment says.
fn own_or(opts: &Json, key: &str, env: &Option<String>) -> (r: Option<String>)
    ensures
        opt_view(r) == either(opts@.str_at(key@), opt_view(*env)),
{
    match opts.str_at(key) {
        Some(s) => Some(s.to_owned()),
        None => opt_copy(opt_str(env)),
    }
}

/// The arguments that connection options give: the user's settings, the settings
/// that hold unless the user has them, the master, the name, and what else is set.
pub open spec fn submit_args(o: SparkOptsView) -> Seq<Seq<char>> {
    conf_args(o.confs) + unless_set(o.confs, "spark.log.level="@, "spark.log.level=ERROR"@)
        + unless_set(
        o.confs,
        "spark.sql.catalogImplementation="@,
        "spark.sql.catalogImplementation=in-memory"@,
    ) + seq![
        "--master"@,
        match o.master {
            Some(m) => m,
            None => "local[*]"@,
        },
    ] + seq![
        "--name"@,
        match o.app_name {
            Some(n) => n,
            None => "stryke-spark"@,
        },
    ] + flag("--deploy-mode"@, o.deploy_mode) + flag("--packages"@, o.packages) + flag(
        "--jars"@,
        o.jars,
    )
}

/// What is said where `spark-submit` is not found.
pub open spec fn not_found(o: SparkOptsView) -> Seq<char> {
    match o.spark_submit {
        Some(p) => "spark_submit `"@ + p + "` is not a file"@,
        None => "spark-submit not found — set `spark_home` opt, or pass `spark_submit`, or put it on $PATH"@,
    }
}

impl SparkOpts {
    /// The connection options that a JSON object gives.
    pub fn from_value(opts: &Json, env: &Env) -> (r: SparkOpts)
        ensures
            r@ == options_of(opts@, env@),
    {
        let confs = match opts.array_at("confs") {
            Some(items) => collect_strings(items),
            None => Vec::new(),
        };
        proof {
            assert(views(confs@) =~= match opts@.array_at("confs"@) {
                Some(items) => strings_in(items),
                None => Seq::<Seq<char>>::empty(),
            });
        }
        SparkOpts {
            master: own_str(opts, "master"),
            app_name: own_str(opts, "app_name"),
            deploy_mode: own_str(opts, "deploy_mode"),
            packages: own_str(opts, "packages"),
            jars: own_str(opts, "jars"),
            confs,
            database: own_str(opts, "database"),
            spark_submit: own_or(opts, "spark_submit", &env.submit),
            spark_home: own_or(opts, "spark_home", &env.home),
        }
    }

    /// The arguments for `spark-submit`.
    pub fn apply_to(&self) -> (r: Vec<String>)
        ensures
            views(r@) == submit_args(self@),
    {
        let mut out: Vec<String> = Vec::new();
        push_confs(&mut out, &self.confs);
        proof {
            assert(views(out@) =~= conf_args(self@.confs));
        }
        push_unless_set(&mut out, &self.confs, "spark.log.level=", "spark.log.level=ERROR");
        push_unless_set(
            &mut out,
            &self.confs,
            "spark.sql.catalogImplementation=",
            "spark.sql.catalogImplementation=in-memory",
        );
        let master = match &self.master {
            Some(m) => m.as_str(),
            None => "local[*]",
        };
        push_pair(&mut out, "--master", master);
        let name = match &self.app_name {
            Some(n) => n.as_str(),
            None => "stryke-spark",
        };
        push_pair(&mut out, "--name", name);
        push_flag(&mut out, "--deploy-mode", opt_str(&self.deploy_mode));
        push_flag(&mut out, "--packages", opt_str(&self.packages));
        push_flag(&mut out, "--jars", opt_str(&self.jars));
        out
    }

    /// What is said where `spark-submit` is not found.
    fn not_found_text(&self) -> (r: String)
        ensures
            r@ == not_found(self@),
    {
        match &self.spark_submit {
            Some(p) => {
                let mut s: String = "spark_submit `".to_owned();
                s.append(p.as_str());
                s.append("` is not a file");
                s
            },
            None => "spark-submit not found — set `spark_home` opt, or pass `spark_submit`, or put it on $PATH".to_owned(),
        }
    }

    /// Starts the search for `spark-submit`, which is to be started with the given
    /// arguments: an explicit path alone, or else the one of the Spark home and then
    /// the directories of `PATH`.
    pub fn locate_spark_submit(&self, path: Option<&str>, args: Vec<String>) -> (r: Step)
        ensures
            r@ == searching(
                candidates(self@.spark_submit, self@.spark_home, str_view(path)),
                views(args@),
                not_found(self@),
            ),
    {
        let paths = list_candidates(opt_str(&self.spark_submit), opt_str(&self.spark_home), path);
        search(paths, args, self.not_found_text())
    }
}

/// An option that the caller gives stands against the environment, which only fills in
/// what the caller leaves open; no other option depends on the environment.
pub proof fn law_options_win_over_environment(opts: JsonView, env: EnvView, other: EnvView)
    ensures
        opts.str_at("spark_submit"@) is Some ==> options_of(opts, env).spark_submit
            == opts.str_at("spark_submit"@),
        opts.str_at("spark_submit"@) is None ==> options_of(opts, env).spark_submit == env.submit,
        opts.str_at("spark_home"@) is Some ==> options_of(opts, env).spark_home == opts.str_at(
            "spark_home"@,
        ),
        opts.str_at("spark_home"@) is None ==> options_of(opts, env).spark_home == env.home,
        submit_args(options_of(opts, env)) == submit_args(options_of(opts, other)),
{
}

/// The arguments start with the user's settings and the defaults that they leave open,
/// and always name a master and an application.
pub proof fn law_arguments_start_with_settings(o: SparkOptsView)
    ensures
        submit_args(o) == conf_args(all_confs(o.confs, "spark.log.level=ERROR"@)) + seq![
            "--master"@,
            match o.master {
                Some(m) => m,
                None => "local[*]"@,
            },
            "--name"@,
            match o.app_name {
                Some(n) => n,
                None => "stryke-spark"@,
            },
        ] + flag("--deploy-mode"@, o.deploy_mode) + flag("--packages"@, o.packages) + flag(
            "--jars"@,
            o.jars,
        ),
{
    law_defaults_fill_in(o.confs, "spark.log.level=ERROR"@);
}

/// Each connection option is the string that the options hold under its own name, whatever
/// the string is, and is not set where they hold none.
pub proof fn law_options_are_read(opts: JsonView, env: EnvView)
    ensures
        options_of(opts, env).master == text_member(opts, "master"@),
        options_of(opts, env).app_name == text_member(opts, "app_name"@),
        options_of(opts, env).deploy_mode == text_member(opts, "deploy_mode"@),
        options_of(opts, env).packages == text_member(opts, "packages"@),
        options_of(opts, env).jars == text_member(opts, "jars"@),
        options_of(opts, env).database == text_member(opts, "database"@),
        text_member(opts, "spark_submit"@) matches Some(s) ==> options_of(opts, env).spark_submit
            == Some(s),
        text_member(opts, "spark_home"@) matches Some(s) ==> options_of(opts, env).spark_home
            == Some(s),
        !(opts.get("confs"@) matches Some(JsonView::Array(_))) ==> options_of(
            opts,
            env,
        ).confs.len() == 0,
        opts.get("confs"@) matches Some(JsonView::Array(items)) ==> options_of(opts, env).confs
            == strings_in(items),
{
}

/// The string that an object holds under a key.
pub open spec fn text_member(opts: JsonView, key: Seq<char>) -> Option<Seq<char>> {
    match opts.get(key) {
        Some(JsonView::Str(s)) => Some(s),
        _ => None,
    }
}

/// The settings that a list names are its strings, all of them and in order: two lists
/// give their strings one behind the other, a string gives itself, and any other value
/// gives none.
pub proof fn law_settings_are_the_strings(
    a: Seq<JsonView>,
    b: Seq<JsonView>,
    s: Seq<char>,
    v: JsonView,
)
    requires
        !(v is Str),
    ensures
        strings_in(a + b) == strings_in(a) + strings_in(b),
        strings_in(seq![JsonView::Str(s)]) == seq![s],
        strings_in(seq![v]).len() == 0,
        strings_in(Seq::<JsonView>::empty()).len() == 0,
    decreases b.len(),
{
    let e = Seq::<JsonView>::empty();
    let one = seq![JsonView::Str(s)];
    assert(one.drop_last() =~= e);
    assert(strings_in(e) =~= Seq::<Seq<char>>::empty());
    assert(strings_in(one.drop_last()) =~= Seq::<Seq<char>>::empty());
    assert(strings_in(one) =~= seq![s]);
    assert(seq![v].drop_last() =~= e);
    assert(strings_in(seq![v].drop_last()) =~= Seq::<Seq<char>>::empty());
    if b.len() == 0 {
        assert(a + b =~= a);
        assert(strings_in(a) + strings_in(b) =~= strings_in(a));
    } else {
        let t = b.drop_last();
        law_settings_are_the_strings(a, t, s, v);
        assert((a + b).drop_last() =~= a + t);
        assert((a + b).last() == b.last());
        assert(strings_in(a + b) =~= strings_in(a) + strings_in(b));
    }
}

/// The arguments in their places: the user's settings, each behind its `--conf`; the
/// defaults that no setting of the user's starts with the key of; the master and the name,
/// given or by default; and the deploy mode, the packages and the jars where they are set.
pub proof fn law_arguments_in_place(o: SparkOptsView)
    ensures
        ({
            let args = submit_args(o);
            let n = o.confs.len() as int;
            let level = forall|i: int|
                0 <= i < n ==> !starts_as(#[trigger] o.confs[i], "spark.log.level="@);
            let catalog = forall|i: int|
                0 <= i < n ==> !starts_as(
                    #[trigger] o.confs[i],
                    "spark.sql.catalogImplementation="@,
                );
            let a = 2 * n;
            let b = a + (if level {
                2int
            } else {
                0
            });
            let c = b + (if catalog {
                2int
            } else {
                0
            });
            let d = c + 4;
            let e = d + (if o.deploy_mode is Some {
                2int
            } else {
                0
            });
            let f = e + (if o.packages is Some {
                2int
            } else {
                0
            });
            let g = f + (if o.jars is Some {
                2int
            } else {
                0
            });
            &&& args.len() == g
            &&& forall|k: int|
                0 <= k < n ==> ((#[trigger] o.confs[k], "--conf"@) == (args[2 * k + 1], args[2 * k]))
            &&& level ==> args[a] == "--conf"@ && args[a + 1] == "spark.log.level=ERROR"@
            &&& catalog ==> args[b] == "--conf"@ && args[b + 1]
                == "spark.sql.catalogImplementation=in-memory"@
            &&& args[c] == "--master"@
            &&& args[c + 1] == (if o.master is Some {
                o.master->0
            } else {
                "local[*]"@
            })
            &&& args[c + 2] == "--name"@
            &&& args[c + 3] == (if o.app_name is Some {
                o.app_name->0
            } else {
                "stryke-spark"@
            })
            &&& o.deploy_mode is Some ==> args[d] == "--deploy-mode"@ && args[d + 1]
                == o.deploy_mode->0
            &&& o.packages is Some ==> args[e] == "--packages"@ && args[e + 1] == o.packages->0
            &&& o.jars is Some ==> args[f] == "--jars"@ && args[f + 1] == o.jars->0
        }),
{
    law_default_stands_alone(o.confs, "spark.log.level="@, "spark.log.level=ERROR"@);
    law_default_stands_alone(
        o.confs,
        "spark.sql.catalogImplementation="@,
        "spark.sql.catalogImplementation=in-memory"@,
    );
    lemma_conf_args_len(o.confs);
    let args = submit_args(o);
    let n = o.confs.len() as int;
    let p1 = unless_set(o.confs, "spark.log.level="@, "spark.log.level=ERROR"@);
    let p2 = unless_set(
        o.confs,
        "spark.sql.catalogImplementation="@,
        "spark.sql.catalogImplementation=in-memory"@,
    );
    let level = forall|i: int|
        0 <= i < n ==> !starts_as(#[trigger] o.confs[i], "spark.log.level="@);
    let catalog = forall|i: int|
        0 <= i < n ==> !starts_as(#[trigger] o.confs[i], "spark.sql.catalogImplementation="@);
    assert(p1.len() == (if level {
        2int
    } else {
        0
    }));
    assert(p2.len() == (if catalog {
        2int
    } else {
        0
    }));
    let b = 2 * n + p1.len();
    let c = b + p2.len();
    if level {
        assert(args[2 * n] == p1[0] && args[2 * n + 1] == p1[1]);
    }
    if catalog {
        assert(args[b] == p2[0] && args[b + 1] == p2[1]);
    }
    assert forall|k: int| 0 <= k < o.confs.len() implies ((#[trigger] o.confs[k], "--conf"@) == (
        args[2 * k + 1],
        args[2 * k],
    )) by {
        law_settings_in_order(o.confs, k);
        assert(submit_args(o)[2 * k] == conf_args(o.confs)[2 * k]);
        assert(submit_args(o)[2 * k + 1] == conf_args(o.confs)[2 * k + 1]);
    }
}

/// Where no `spark-submit` is found, the words show the explicit path where one was given.
pub proof fn law_not_found_words(o: SparkOptsView)
    ensures
        o.spark_submit matches Some(p) ==> not_found(o) == "spark_submit `"@ + p
            + "` is not a file"@,
        o.spark_submit is None ==> not_found(o)
            == "spark-submit not found — set `spark_home` opt, or pass `spark_submit`, or put it on $PATH"@,
{
}

/// The functions on connection options give what they come to, and the search for
/// `spark-submit` starts at the first candidate with the given arguments.
pub proof fn law_operations(
    opts: &Json,
    env: &Env,
    o: SparkOpts,
    args: Vec<String>,
    path: Option<&str>,
    r: Step,
)
    ensures
        call_ensures(SparkOpts::from_value, (opts, env), o) ==> o@ == options_of(opts@, env@),
        call_ensures(SparkOpts::apply_to, (&o,), args) ==> views(args@) == submit_args(o@),
        call_ensures(SparkOpts::locate_spark_submit, (&o, path, args), r) ==> {
            let paths = candidates(o@.spark_submit, o@.spark_home, str_view(path));
            &&& paths.len() > 0 ==> (r matches Step::Probe(p) && p.path@ == paths[0] && views(
                p.rest@,
            ) == paths.skip(1) && views(p.args@) == views(args@) && p.failure@ == not_found(o@))
            &&& paths.len() == 0 ==> (r matches Step::Fail(e) && e@ == not_found(o@))
        },
{
}

} // verus!
