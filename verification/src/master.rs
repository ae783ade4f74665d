//! Spark master URLs: `local[8]`, `yarn`, `spark://h1:7077,h2:7077`, `k8s://…`.

use vstd::prelude::*;
use vstd::slice::slice_subrange;
use vstd::string::*;

use crate::error::{outcome, Error};
use crate::json::{json_views, lemma_json_views_push, no_members, put, Json, JsonView};
use crate::text::{
    chars_of, dec, dec_text, find_from, find_text, has_prefix, has_suffix, is_digit, join,
    join_texts, lemma_dec, lemma_find_first, lemma_find_is, lemma_find_occurs, lemma_join_split,
    lemma_parse_dec, lemma_rfind, lemma_rfind_is, lemma_split_join, lemma_views_push, occurs_at,
    parse_uint, read_u32, rfind, rfind_char, same_chars, same_text, split_chars, split_on,
    starts_with, string_of, views,
};
use crate::wire::{display_json, encoded_text};

verus! {

// ---------------------------------------------------------------------------
// Parts of a master URL
// ---------------------------------------------------------------------------

/// How many threads a local master has.
pub enum Threads {
    /// As many as there are processors.
    Star,
    Count(u32),
}

/// A host of a standalone cluster, with the port where one is given.
pub struct Host {
    pub host: String,
    pub port: Option<u32>,
}

/// What a master URL says.
pub enum Master {
    Local(Threads),
    Yarn,
    Spark(Vec<Host>),
    Other { scheme: String, master: String },
}

/// The threads of a local master as the model has them.
pub enum ThreadsView {
    Star,
    Count(nat),
}

/// A host as the model has it.
pub struct HostView {
    pub host: Seq<char>,
    pub port: Option<nat>,
}

/// What a master URL says, as the model has it.
pub enum MasterView {
    Local(ThreadsView),
    Yarn,
    Spark(Seq<HostView>),
    Other { scheme: Seq<char>, master: Seq<char> },
}

impl View for Threads {
    type V = ThreadsView;

    open spec fn view(&self) -> ThreadsView {
        match self {
            Threads::Star => ThreadsView::Star,
            Threads::Count(n) => ThreadsView::Count(*n as nat),
        }
    }
}

impl View for Host {
    type V = HostView;

    open spec fn view(&self) -> HostView {
        HostView {
            host: self.host@,
            port: match self.port {
                Some(p) => Some(p as nat),
                None => None,
            },
        }
    }
}

/// Hosts as the model has them.
pub open spec fn host_views(v: Seq<Host>) -> Seq<HostView> {
    Seq::new(v.len(), |i: int| v[i]@)
}

impl View for Master {
    type V = MasterView;

    open spec fn view(&self) -> MasterView {
        match self {
            Master::Local(t) => MasterView::Local(t@),
            Master::Yarn => MasterView::Yarn,
            Master::Spark(v) => MasterView::Spark(host_views(v@)),
            Master::Other { scheme, master } => MasterView::Other {
                scheme: scheme@,
                master: master@,
            },
        }
    }
}

// ---------------------------------------------------------------------------
// Reading a master URL
// ---------------------------------------------------------------------------

/// A host and its port: what stands behind the last colon is the port where it is
/// a number of 32 bits; otherwise all of it is the host.
pub open spec fn host_of(hp: Seq<char>) -> HostView {
    match rfind(hp, ':') {
        Some(i) => match parse_uint(hp.skip(i + 1), u32::MAX as nat) {
            Some(p) => HostView { host: hp.take(i), port: Some(p) },
            None => HostView { host: hp, port: None },
        },
        None => HostView { host: hp, port: None },
    }
}

/// The hosts that a list of pieces stands for. An empty piece is none.
pub open spec fn hosts_of(pieces: Seq<Seq<char>>) -> Seq<HostView>
    decreases pieces.len(),
{
    if pieces.len() == 0 {
        Seq::<HostView>::empty()
    } else {
        let front = hosts_of(pieces.drop_last());
        if pieces.last().len() == 0 {
            front
        } else {
            front.push(host_of(pieces.last()))
        }
    }
}

/// Whether a URL has the form `local[…]`.
pub open spec fn is_bracketed(url: Seq<char>) -> bool {
    has_prefix(url, "local["@) && has_suffix(url.skip("local["@.len() as int), "]"@)
}

/// What stands in the brackets of `local[…]`.
pub open spec fn in_brackets(url: Seq<char>) -> Seq<char> {
    url.subrange("local["@.len() as int, url.len() - "]"@.len())
}

/// What a master URL says, or why it is none.
pub open spec fn master_of(url: Seq<char>) -> Result<MasterView, Seq<char>> {
    if url == "local"@ {
        Ok(MasterView::Local(ThreadsView::Count(1)))
    } else if is_bracketed(url) {
        let inner = in_brackets(url);
        if inner == "*"@ {
            Ok(MasterView::Local(ThreadsView::Star))
        } else {
            match parse_uint(inner, u32::MAX as nat) {
                Some(n) => Ok(MasterView::Local(ThreadsView::Count(n))),
                None => Err("invalid local thread count `"@ + inner + "`"@),
            }
        }
    } else if url == "yarn"@ {
        Ok(MasterView::Yarn)
    } else {
        match find_from(url, "://"@, 0) {
            None => Err("not a Spark master URL: "@ + url),
            Some(i) => {
                let scheme = url.take(i);
                let rest = url.skip(i + "://"@.len());
                if scheme == "spark"@ {
                    Ok(MasterView::Spark(hosts_of(split_on(rest, ','))))
                } else {
                    Ok(MasterView::Other { scheme, master: rest })
                }
            },
        }
    }
}

/// Reads a host and its port.
pub fn read_host(hp: &str) -> (r: Host)
    ensures
        r@ == host_of(hp@),
{
    let cs = chars_of(hp);
    proof {
        lemma_rfind(cs@, ':');
    }
    match rfind_char(cs.as_slice(), ':') {
        Some(i) => {
            let tail = slice_subrange(cs.as_slice(), i + 1, cs.len());
            proof {
                assert(tail@ =~= hp@.skip(i + 1));
            }
            match read_u32(tail) {
                Some(p) => {
                    let head = slice_subrange(cs.as_slice(), 0, i);
                    proof {
                        assert(head@ =~= hp@.take(i as int));
                    }
                    Host { host: string_of(head), port: Some(p) }
                },
                None => Host { host: hp.to_owned(), port: None },
            }
        },
        None => Host { host: hp.to_owned(), port: None },
    }
}

/// Reads the hosts of a standalone cluster.
pub fn read_hosts(rest: &[char]) -> (r: Vec<Host>)
    ensures
        host_views(r@) == hosts_of(split_on(rest@, ',')),
{
    let pieces = split_chars(rest, ',');
    let ghost all = views(pieces@);
    let mut out: Vec<Host> = Vec::new();
    let mut i: usize = 0;
    proof {
        assert(all.take(0) =~= Seq::<Seq<char>>::empty());
        assert(host_views(out@) =~= hosts_of(all.take(0)));
    }
    while i < pieces.len()
        invariant
            i <= pieces@.len(),
            all == views(pieces@),
            host_views(out@) == hosts_of(all.take(i as int)),
        decreases pieces@.len() - i,
    {
        proof {
            assert(all.take(i + 1).drop_last() =~= all.take(i as int));
            assert(all.take(i + 1).last() == pieces@[i as int]@);
        }
        if !pieces[i].as_str().is_empty() {
            let h = read_host(pieces[i].as_str());
            proof {
                assert(host_views(out@.push(h)) =~= host_views(out@).push(h@));
            }
            out.push(h);
        }
        i = i + 1;
    }
    proof {
        assert(all.take(i as int) =~= all);
    }
    out
}

/// Reads a master URL.
pub fn read_master(url: &str) -> (r: Result<Master, Error>)
    ensures
        match r {
            Ok(m) => master_of(url@) == Ok::<MasterView, Seq<char>>(m@),
            Err(e) => master_of(url@) == Err::<MasterView, Seq<char>>(e@),
        },
{
    proof {
        reveal_strlit("local[");
        reveal_strlit("]");
        reveal_strlit("://");
    }
    if same_text(url, "local") {
        return Ok(Master::Local(Threads::Count(1)));
    }
    let cs = chars_of(url);
    let s = cs.as_slice();
    if starts_with(s, "local[") && s.len() > 6 && s[s.len() - 1] == ']' {
        let inner = slice_subrange(s, 6, s.len() - 1);
        proof {
            let t = url@.skip(6);
            assert(t.skip(t.len() - 1) =~= "]"@);
            assert(is_bracketed(url@));
            assert(inner@ =~= in_brackets(url@));
        }
        let star = chars_of("*");
        if same_chars(inner, star.as_slice()) {
            return Ok(Master::Local(Threads::Star));
        }
        return match read_u32(inner) {
            Some(n) => Ok(Master::Local(Threads::Count(n))),
            None => {
                let shown = string_of(inner);
                Err(Error::around("invalid local thread count `", shown.as_str(), "`"))
            },
        };
    }
    proof {
        if is_bracketed(url@) {
            let t = url@.skip(6);
            assert(t.skip(t.len() - 1)[0] == "]"@[0]);
            assert(t.skip(t.len() - 1)[0] == url@[url@.len() - 1]);
        }
    }
    if same_text(url, "yarn") {
        return Ok(Master::Yarn);
    }
    proof {
        lemma_find_occurs(url@, "://"@, 0);
    }
    match find_text(s, "://") {
        None => Err(Error::about("not a Spark master URL: ", url)),
        Some(i) => {
            let head = slice_subrange(s, 0, i);
            let rest = slice_subrange(s, i + 3, s.len());
            proof {
                assert(head@ =~= url@.take(i as int));
                assert(rest@ =~= url@.skip(i + 3));
            }
            let scheme = string_of(head);
            if same_text(scheme.as_str(), "spark") {
                Ok(Master::Spark(read_hosts(rest)))
            } else {
                Ok(Master::Other { scheme, master: string_of(rest) })
            }
        },
    }
}

// ---------------------------------------------------------------------------
// The parts as JSON
// ---------------------------------------------------------------------------

/// The threads of a local master as JSON.
pub open spec fn threads_json(t: ThreadsView) -> JsonView {
    match t {
        ThreadsView::Star => JsonView::Str("*"@),
        ThreadsView::Count(n) => JsonView::Int(n as int),
    }
}

/// A host as JSON: `{host, port}`, with a null for no port.
pub open spec fn host_json(h: HostView) -> JsonView {
    JsonView::Object(
        map![
            "host"@ => JsonView::Str(h.host),
            "port"@ => match h.port {
                Some(p) => JsonView::Int(p as int),
                None => JsonView::Null,
            },
        ],
    )
}

/// What a master URL says, as JSON.
pub open spec fn master_json(m: MasterView) -> JsonView {
    match m {
        MasterView::Local(t) => JsonView::Object(
            map!["scheme"@ => JsonView::Str("local"@), "threads"@ => threads_json(t)],
        ),
        MasterView::Yarn => JsonView::Object(map!["scheme"@ => JsonView::Str("yarn"@)]),
        MasterView::Spark(hosts) => JsonView::Object(
            map![
                "scheme"@ => JsonView::Str("spark"@),
                "hosts"@ => JsonView::Array(Seq::new(hosts.len(), |i: int| host_json(hosts[i]))),
            ],
        ),
        MasterView::Other { scheme, master } => JsonView::Object(
            map!["scheme"@ => JsonView::Str(scheme), "master"@ => JsonView::Str(master)],
        ),
    }
}

/// A host as JSON.
fn host_to_json(h: &Host) -> (j: Json)
    ensures
        j@ == host_json(h@),
{
    let port = match h.port {
        Some(p) => Json::uint(p as u64),
        None => Json::Null,
    };
    let mut m = no_members();
    put(&mut m, "host", Json::text(h.host.as_str()));
    put(&mut m, "port", port);
    Json::Object(m)
}

/// What a master URL says, as JSON.
pub fn master_to_json(m: &Master) -> (j: Json)
    ensures
        j@ == master_json(m@),
{
    let mut out = no_members();
    match m {
        Master::Local(t) => {
            put(&mut out, "scheme", Json::text("local"));
            let threads = match t {
                Threads::Star => Json::text("*"),
                Threads::Count(n) => Json::uint(*n as u64),
            };
            put(&mut out, "threads", threads);
        },
        Master::Yarn => {
            put(&mut out, "scheme", Json::text("yarn"));
        },
        Master::Spark(hosts) => {
            put(&mut out, "scheme", Json::text("spark"));
            let mut list: Vec<Json> = Vec::new();
            let ghost hv = host_views(hosts@);
            let ghost all = Seq::new(hv.len(), |i: int| host_json(hv[i]));
            let mut i: usize = 0;
            while i < hosts.len()
                invariant
                    i <= hosts@.len(),
                    hv == host_views(hosts@),
                    all == Seq::new(hv.len(), |i: int| host_json(hv[i])),
                    json_views(list@) == all.take(i as int),
                decreases hosts@.len() - i,
            {
                let h = host_to_json(&hosts[i]);
                proof {
                    lemma_json_views_push(list@, h);
                    assert(all.take(i + 1) =~= all.take(i as int).push(h@));
                }
                list.push(h);
                i = i + 1;
            }
            proof {
                assert(all.take(i as int) =~= all);
            }
            put(&mut out, "hosts", Json::Array(list));
        },
        Master::Other { scheme, master } => {
            put(&mut out, "scheme", Json::text(scheme.as_str()));
            put(&mut out, "master", Json::text(master.as_str()));
        },
    }
    Json::Object(out)
}

/// What `op_parse_master_url` answers.
pub open spec fn parsed_master(opts: JsonView) -> Result<JsonView, Seq<char>> {
    match opts.str_at_either("url"@, "master"@) {
        None => Err("missing url"@),
        Some(url) => match master_of(url) {
            Ok(m) => Ok(master_json(m)),
            Err(e) => Err(e),
        },
    }
}

/// Parses a Spark master URL into its parts: `local`, `local[N]`, `local[*]`,
/// `yarn`, `spark://host:port[,host:port]` for a standalone cluster, and forms with
/// another scheme in front (`k8s://…`, `mesos://…`). opts: `url`, or else `master`.
pub fn op_parse_master_url(opts: Json) -> (r: Result<Json, Error>)
    ensures
        outcome(r) == parsed_master(opts@),
{
    let url = match opts.str_at_either("url", "master") {
        Some(u) => u,
        None => {
            return Err(Error::new("missing url"));
        },
    };
    match read_master(url) {
        Ok(m) => Ok(master_to_json(&m)),
        Err(e) => Err(e),
    }
}

// ---------------------------------------------------------------------------
// Building a master URL
// ---------------------------------------------------------------------------

/// The text of a host entry, or `None` where it has no host.
pub open spec fn entry_text(h: JsonView) -> Option<Seq<char>> {
    match h.str_at("host"@) {
        None => None,
        Some(host) => if host.len() == 0 {
            None
        } else {
            match h.u64_at("port"@) {
                Some(p) => Some(host + ":"@ + dec(p as nat)),
                None => Some(host),
            }
        },
    }
}

/// The URL of a local master with the given threads.
pub open spec fn local_url(threads: Option<JsonView>) -> Result<Seq<char>, Seq<char>> {
    match threads {
        None => Ok("local"@),
        Some(t) => if t == JsonView::Str("*"@) {
            Ok("local[*]"@)
        } else if t is Int || t is Float {
            match t.as_u64() {
                None => Err("invalid thread count"@),
                Some(n) => if n == 1 {
                    Ok("local"@)
                } else {
                    Ok("local["@ + dec(n as nat) + "]"@)
                },
            }
        } else {
            Err("invalid threads value: "@ + encoded_text(t))
        },
    }
}

/// The URL of a standalone cluster with the given host entries.
pub open spec fn spark_url(hosts: Option<Seq<JsonView>>) -> Result<Seq<char>, Seq<char>> {
    match hosts {
        None => Err("spark scheme requires a non-empty hosts list"@),
        Some(hs) => if hs.len() == 0 {
            Err("spark scheme requires a non-empty hosts list"@)
        } else if exists|i: int| 0 <= i < hs.len() && entry_text(#[trigger] hs[i]) is None {
            Err("host entry missing `host`"@)
        } else {
            Ok("spark://"@ + join(Seq::new(hs.len(), |i: int| entry_text(hs[i])->0), ","@))
        },
    }
}

/// The URL that parts stand for, or why they stand for none.
pub open spec fn url_of(opts: JsonView) -> Result<Seq<char>, Seq<char>> {
    match opts.str_at("scheme"@) {
        None => Err("missing scheme"@),
        Some(scheme) => if scheme == "local"@ {
            local_url(opts.get("threads"@))
        } else if scheme == "yarn"@ {
            Ok("yarn"@)
        } else if scheme == "spark"@ {
            spark_url(opts.array_at("hosts"@))
        } else {
            match opts.str_at("master"@) {
                None => Err("`"@ + scheme + "` scheme requires a master address"@),
                Some(master) => Ok(scheme + "://"@ + master),
            }
        },
    }
}

/// What `op_build_master_url` answers.
pub open spec fn built_master(opts: JsonView) -> Result<JsonView, Seq<char>> {
    match url_of(opts) {
        Err(e) => Err(e),
        Ok(url) => Ok(JsonView::Object(map!["url"@ => JsonView::Str(url)])),
    }
}

/// The text of a host entry.
fn write_entry(h: &Json) -> (r: Option<String>)
    ensures
        match r {
            Some(s) => entry_text(h@) == Some(s@),
            None => entry_text(h@) is None,
        },
{
    match h.str_at("host") {
        None => None,
        Some(host) => {
            if host.is_empty() {
                return None;
            }
            let mut s: String = host.to_owned();
            match h.u64_at("port") {
                Some(p) => {
                    s.append(":");
                    s.append(dec_text(p).as_str());
                },
                None => {},
            }
            Some(s)
        },
    }
}

/// The URL of a local master.
fn write_local(threads: Option<&Json>) -> (r: Result<String, Error>)
    ensures
        match r {
            Ok(s) => local_url(
                match threads {
                    Some(t) => Some(t@),
                    None => None,
                },
            ) == Ok::<Seq<char>, Seq<char>>(s@),
            Err(e) => local_url(
                match threads {
                    Some(t) => Some(t@),
                    None => None,
                },
            ) == Err::<Seq<char>, Seq<char>>(e@),
        },
{
    let t = match threads {
        None => {
            return Ok("local".to_owned());
        },
        Some(t) => t,
    };
    match t {
        Json::Str(s) => {
            if same_text(s.as_str(), "*") {
                return Ok("local[*]".to_owned());
            }
        },
        Json::Number(_) => {
            return match t.as_u64() {
                None => Err(Error::new("invalid thread count")),
                Some(n) => if n == 1 {
                    Ok("local".to_owned())
                } else {
                    let mut s: String = "local[".to_owned();
                    s.append(dec_text(n).as_str());
                    s.append("]");
                    Ok(s)
                },
            };
        },
        _ => {},
    }
    Err(Error::about("invalid threads value: ", display_json(t).as_str()))
}

/// The URL of a standalone cluster.
fn write_spark(hosts: Option<&Vec<Json>>) -> (r: Result<String, Error>)
    ensures
        match r {
            Ok(s) => spark_url(
                match hosts {
                    Some(h) => Some(json_views(h@)),
                    None => None,
                },
            ) == Ok::<Seq<char>, Seq<char>>(s@),
            Err(e) => spark_url(
                match hosts {
                    Some(h) => Some(json_views(h@)),
                    None => None,
                },
            ) == Err::<Seq<char>, Seq<char>>(e@),
        },
{
    let hs = match hosts {
        None => {
            return Err(Error::new("spark scheme requires a non-empty hosts list"));
        },
        Some(h) => h,
    };
    let ghost all = json_views(hs@);
    if hs.len() == 0 {
        return Err(Error::new("spark scheme requires a non-empty hosts list"));
    }
    let mut parts: Vec<String> = Vec::new();
    let mut i: usize = 0;
    while i < hs.len()
        invariant
            i <= hs@.len(),
            all == json_views(hs@),
            all.len() > 0,
            hosts == Some(hs),
            forall|k: int| 0 <= k < i ==> entry_text(#[trigger] all[k]) is Some,
            views(parts@) == Seq::new(i as nat, |k: int| entry_text(all[k])->0),
        decreases hs@.len() - i,
    {
        match write_entry(&hs[i]) {
            Some(s) => {
                proof {
                    assert(all[i as int] == hs@[i as int]@);
                    lemma_views_push(parts@, s);
                    assert(Seq::new((i + 1) as nat, |k: int| entry_text(all[k])->0) =~= Seq::new(
                        i as nat,
                        |k: int| entry_text(all[k])->0,
                    ).push(s@));
                }
                parts.push(s);
            },
            None => {
                proof {
                    assert(all[i as int] == hs@[i as int]@);
                }
                return Err(Error::new("host entry missing `host`"));
            },
        }
        i = i + 1;
    }
    proof {
        assert(views(parts@) =~= Seq::new(all.len(), |i: int| entry_text(all[i])->0));
    }
    let mut url: String = "spark://".to_owned();
    url.append(join_texts(&parts, ",").as_str());
    Ok(url)
}

/// Builds a Spark master URL from parts, the inverse of `op_parse_master_url`.
/// opts: `scheme`. `local` honors `threads` (a count, or `"*"`; a count of 1 and an
/// absent one yield the bare `local`); `spark` joins `hosts` (`[{host, port?}]`) into
/// `spark://h1:p1,h2`; `yarn` is the bare word; any other scheme needs a `master`
/// string and yields `scheme://master`. Answers `{url}`.
pub fn op_build_master_url(opts: Json) -> (r: Result<Json, Error>)
    ensures
        outcome(r) == built_master(opts@),
{
    let scheme = match opts.str_at("scheme") {
        Some(s) => s,
        None => {
            return Err(Error::new("missing scheme"));
        },
    };
    let written = if same_text(scheme, "local") {
        write_local(opts.get("threads"))
    } else if same_text(scheme, "yarn") {
        Ok("yarn".to_owned())
    } else if same_text(scheme, "spark") {
        write_spark(opts.array_at("hosts"))
    } else {
        match opts.str_at("master") {
            Some(master) => {
                let mut s: String = scheme.to_owned();
                s.append("://");
                s.append(master);
                Ok(s)
            },
            None => Err(Error::around("`", scheme, "` scheme requires a master address")),
        }
    };
    match written {
        Err(e) => Err(e),
        Ok(url) => {
            let mut m = no_members();
            put(&mut m, "url", Json::Str(url));
            Ok(Json::Object(m))
        },
    }
}

// ---------------------------------------------------------------------------
// Laws
// ---------------------------------------------------------------------------

/// The text of a host with its port.
pub open spec fn host_text(h: HostView) -> Seq<char> {
    match h.port {
        Some(p) => h.host + ":"@ + dec(p),
        None => h.host,
    }
}

/// Whether a host can be told from its text: it is not empty, holds no comma, has a
/// port of at most 32 bits, and does not itself end in what reads as a port where it
/// has none.
pub open spec fn plain_host(h: HostView) -> bool {
    &&& h.host.len() > 0
    &&& !h.host.contains(',')
    &&& match h.port {
        Some(p) => p <= u32::MAX,
        None => host_of(h.host) == h,
    }
}

/// The text of a master URL with the given parts.
pub open spec fn master_text(m: MasterView) -> Seq<char> {
    match m {
        MasterView::Local(ThreadsView::Star) => "local[*]"@,
        MasterView::Local(ThreadsView::Count(n)) => if n == 1 {
            "local"@
        } else {
            "local["@ + dec(n) + "]"@
        },
        MasterView::Yarn => "yarn"@,
        MasterView::Spark(hosts) => "spark://"@ + join(
            Seq::new(hosts.len(), |i: int| host_text(hosts[i])),
            ","@,
        ),
        MasterView::Other { scheme, master } => scheme + "://"@ + master,
    }
}

/// Whether the parts of a master URL can be told from its text: a thread count of at
/// most 32 bits, one plain host or more, and a scheme that is none of the known words,
/// holds no `://` and does not make the whole read as `local[…]`.
pub open spec fn plain_master(m: MasterView) -> bool {
    match m {
        MasterView::Local(ThreadsView::Star) => true,
        MasterView::Local(ThreadsView::Count(n)) => n <= u32::MAX,
        MasterView::Yarn => true,
        MasterView::Spark(hosts) => {
            &&& hosts.len() > 0
            &&& forall|i: int| 0 <= i < hosts.len() ==> plain_host(#[trigger] hosts[i])
        },
        MasterView::Other { scheme, master } => {
            &&& scheme != "local"@
            &&& scheme != "yarn"@
            &&& scheme != "spark"@
            &&& find_from(scheme, "://"@, 0) is None
            &&& !is_bracketed(master_text(m))
        },
    }
}

/// A host with its port reads back from its text.
proof fn lemma_host_text(h: HostView)
    requires
        plain_host(h),
    ensures
        host_of(host_text(h)) == h,
        host_text(h).len() > 0,
        !host_text(h).contains(','),
{
    match h.port {
        Some(p) => {
            let t = host_text(h);
            let n = h.host.len() as int;
            reveal_strlit(":");
            lemma_dec(p);
            lemma_parse_dec(p, u32::MAX as nat);
            assert(t[n] == ':');
            assert forall|k: int| n < k < t.len() implies t[k] != ':' && t[k] != ',' by {
                assert(t[k] == dec(p)[k - n - 1]);
                assert(is_digit(dec(p)[k - n - 1]));
            }
            lemma_rfind_is(t, ':', n);
            assert(t.skip(n + 1) =~= dec(p));
            assert(t.take(n) =~= h.host);
            assert forall|k: int| 0 <= k < t.len() implies t[k] != ',' by {
                if k < n {
                    assert(t[k] == h.host[k]);
                }
            }
        },
        None => {},
    }
}

/// Where no piece is empty, every piece gives a host.
proof fn lemma_hosts_of_filled(pieces: Seq<Seq<char>>)
    requires
        forall|i: int| 0 <= i < pieces.len() ==> (#[trigger] pieces[i]).len() > 0,
    ensures
        hosts_of(pieces) == Seq::new(pieces.len(), |i: int| host_of(pieces[i])),
    decreases pieces.len(),
{
    if pieces.len() > 0 {
        let front = pieces.drop_last();
        assert forall|i: int| 0 <= i < front.len() implies (#[trigger] front[i]).len() > 0 by {
            assert(front[i] == pieces[i]);
        }
        lemma_hosts_of_filled(front);
        assert(pieces[pieces.len() - 1].len() > 0);
    }
    assert(hosts_of(pieces) =~= Seq::new(pieces.len(), |i: int| host_of(pieces[i])));
}

/// Every host comes from a piece.
proof fn lemma_hosts_of_piece(pieces: Seq<Seq<char>>, i: int) -> (k: int)
    requires
        0 <= i < hosts_of(pieces).len(),
    ensures
        0 <= k < pieces.len(),
        hosts_of(pieces)[i] == host_of(pieces[k]),
    decreases pieces.len(),
{
    let front = pieces.drop_last();
    if i < hosts_of(front).len() {
        lemma_hosts_of_piece(front, i)
    } else {
        pieces.len() - 1
    }
}

/// What is read of the text of a standalone cluster.
proof fn lemma_spark_text(hosts: Seq<HostView>)
    requires
        plain_master(MasterView::Spark(hosts)),
    ensures
        master_of(master_text(MasterView::Spark(hosts))) == Ok::<MasterView, Seq<char>>(
            MasterView::Spark(hosts),
        ),
{
    let texts = Seq::new(hosts.len(), |i: int| host_text(hosts[i]));
    let j = join(texts, ","@);
    let url = master_text(MasterView::Spark(hosts));
    reveal_strlit("local");
    reveal_strlit("local[");
    reveal_strlit("yarn");
    reveal_strlit("spark");
    reveal_strlit("spark://");
    reveal_strlit("://");
    reveal_strlit(",");
    assert(","@ =~= seq![',']);
    assert(url[0] == 's');
    assert("local"@[0] == 'l' && "yarn"@[0] == 'y');
    assert(!has_prefix(url, "local["@)) by {
        assert("local["@[0] == 'l');
        if has_prefix(url, "local["@) {
            assert(url.take(6)[0] == url[0]);
        }
    }
    assert(url.subrange(5, 8) =~= "://"@);
    assert forall|k: int| 0 <= k < 5 implies !occurs_at(url, "://"@, k) by {
        if occurs_at(url, "://"@, k) {
            assert(url.subrange(k, k + 3)[0] == url[k]);
            assert("://"@[0] == ':');
            assert(url[k] == "spark://"@[k]);
        }
    }
    lemma_find_is(url, "://"@, 0, 5);
    assert(url.take(5) =~= "spark"@);
    assert(url.skip(8) =~= j);
    assert forall|i: int| 0 <= i < texts.len() implies {
        &&& (#[trigger] texts[i]).len() > 0
        &&& !texts[i].contains(',')
        &&& host_of(texts[i]) == hosts[i]
    } by {
        assert(plain_host(hosts[i]));
        lemma_host_text(hosts[i]);
    }
    lemma_split_join(texts, ',');
    lemma_hosts_of_filled(texts);
    assert(hosts_of(texts) =~= hosts);
}

/// What is read of the text of a local master with a thread count.
proof fn lemma_local_text(n: nat)
    requires
        n <= u32::MAX,
    ensures
        master_of("local["@ + dec(n) + "]"@) == Ok::<MasterView, Seq<char>>(
            MasterView::Local(ThreadsView::Count(n)),
        ),
{
    let url = "local["@ + dec(n) + "]"@;
    lemma_dec(n);
    lemma_parse_dec(n, u32::MAX as nat);
    reveal_strlit("local");
    reveal_strlit("local[");
    reveal_strlit("]");
    reveal_strlit("*");
    assert(url.take(6) =~= "local["@);
    let t = url.skip(6);
    assert(t.skip(t.len() - 1) =~= "]"@);
    assert(in_brackets(url) =~= dec(n));
    assert(is_digit(dec(n)[0]));
    assert("*"@[0] == '*');
}

/// What is read of the words that stand for a master by themselves.
proof fn lemma_word_text()
    ensures
        master_of("local"@) == Ok::<MasterView, Seq<char>>(MasterView::Local(ThreadsView::Count(1))),
        master_of("local[*]"@) == Ok::<MasterView, Seq<char>>(MasterView::Local(ThreadsView::Star)),
        master_of("yarn"@) == Ok::<MasterView, Seq<char>>(MasterView::Yarn),
{
    reveal_strlit("local");
    reveal_strlit("local[");
    reveal_strlit("local[*]");
    reveal_strlit("]");
    reveal_strlit("*");
    reveal_strlit("yarn");
    let star = "local[*]"@;
    assert(star.len() == 8);
    assert(star.take(6) =~= "local["@);
    let t = star.skip(6);
    assert(t.skip(t.len() - 1) =~= "]"@);
    assert(in_brackets(star) =~= "*"@);
    assert("yarn"@.len() == 4);
    assert("local"@.len() == 5);
}

/// What is read of the text of another scheme.
proof fn lemma_other_text(scheme: Seq<char>, master: Seq<char>)
    requires
        plain_master(MasterView::Other { scheme, master }),
    ensures
        master_of(scheme + "://"@ + master) == Ok::<MasterView, Seq<char>>(
            MasterView::Other { scheme, master },
        ),
{
    let url = scheme + "://"@ + master;
    let n = scheme.len() as int;
    reveal_strlit("local");
    reveal_strlit("yarn");
    reveal_strlit("://");
    assert("://"@.len() == 3 && "://"@[0] == ':' && "://"@[1] == '/' && "://"@[2] == '/');
    assert(url[n] == ':');
    assert(forall|k: int| 0 <= k < 5 ==> "local"@[k] != ':');
    assert(forall|k: int| 0 <= k < 4 ==> "yarn"@[k] != ':');
    assert(url != "local"@);
    assert(url != "yarn"@);
    assert(url.subrange(n, n + 3) =~= "://"@);
    assert forall|k: int| 0 <= k < n implies !occurs_at(url, "://"@, k) by {
        if occurs_at(url, "://"@, k) {
            let o = url.subrange(k, k + 3);
            assert(o[1] == url[k + 1] && o[2] == url[k + 2]);
            if k + 3 <= n {
                assert(o =~= scheme.subrange(k, k + 3));
                lemma_find_first(scheme, "://"@, 0, k);
            }
        }
    }
    lemma_find_is(url, "://"@, 0, n);
    assert(url.take(n) =~= scheme);
    assert(url.skip(n + 3) =~= master);
}

/// The parts of a master URL read back from its text.
proof fn lemma_master_text(m: MasterView)
    requires
        plain_master(m),
    ensures
        master_of(master_text(m)) == Ok::<MasterView, Seq<char>>(m),
{
    match m {
        MasterView::Local(ThreadsView::Star) => {
            lemma_word_text();
        },
        MasterView::Local(ThreadsView::Count(n)) => {
            if n == 1 {
                lemma_word_text();
            } else {
                lemma_local_text(n);
            }
        },
        MasterView::Yarn => {
            lemma_word_text();
        },
        MasterView::Spark(hosts) => {
            lemma_spark_text(hosts);
        },
        MasterView::Other { scheme, master } => {
            lemma_other_text(scheme, master);
        },
    }
}

/// Whether the numbers among the parts of a master URL are of at most 32 bits.
spec fn narrow(m: MasterView) -> bool {
    match m {
        MasterView::Local(ThreadsView::Count(n)) => n <= u32::MAX,
        MasterView::Spark(hosts) => forall|i: int|
            0 <= i < hosts.len() ==> ((#[trigger] hosts[i]).port matches Some(p) ==> p
                <= u32::MAX),
        _ => true,
    }
}

/// What is read of a master URL holds numbers of at most 32 bits.
proof fn lemma_read_is_narrow(url: Seq<char>)
    requires
        master_of(url) is Ok,
    ensures
        narrow(master_of(url)->Ok_0),
{
    if let MasterView::Spark(hosts) = master_of(url)->Ok_0 {
        let at = find_from(url, "://"@, 0)->0;
        let pieces = split_on(url.skip(at + "://"@.len()), ',');
        assert forall|i: int| 0 <= i < hosts.len() implies ((#[trigger] hosts[i]).port matches Some(
            p,
        ) ==> p <= u32::MAX) by {
            let k = lemma_hosts_of_piece(pieces, i);
        }
    }
}

/// What is built from the parts of a local master, of a cluster, and of another
/// scheme.
proof fn lemma_url_of_parts(m: MasterView)
    requires
        narrow(m),
    ensures
        match m {
            MasterView::Local(_) | MasterView::Yarn => url_of(master_json(m)) == Ok::<
                Seq<char>,
                Seq<char>,
            >(master_text(m)),
            MasterView::Spark(hosts) => if hosts.len() > 0 && (forall|i: int|
                0 <= i < hosts.len() ==> (#[trigger] hosts[i]).host.len() > 0) {
                url_of(master_json(m)) == Ok::<Seq<char>, Seq<char>>(master_text(m))
            } else {
                url_of(master_json(m)) is Err
            },
            MasterView::Other { scheme, master } => url_of(master_json(m)) == Ok::<
                Seq<char>,
                Seq<char>,
            >(
                if scheme == "local"@ {
                    "local"@
                } else if scheme == "yarn"@ {
                    "yarn"@
                } else {
                    master_text(m)
                },
            ) || scheme == "spark"@,
        },
{
    reveal_strlit("scheme");
    reveal_strlit("threads");
    reveal_strlit("hosts");
    reveal_strlit("master");
    reveal_strlit("local");
    reveal_strlit("yarn");
    reveal_strlit("spark");
    assert("scheme"@.len() == 6 && "threads"@.len() == 7 && "hosts"@.len() == 5 && "master"@.len()
        == 6);
    assert("scheme"@[0] == 's' && "master"@[0] == 'm');
    assert("local"@.len() == 5 && "yarn"@.len() == 4 && "spark"@.len() == 5);
    assert("local"@[0] == 'l' && "spark"@[0] == 's');
    let j = master_json(m);
    match m {
        MasterView::Local(t) => {
            assert(j.get("scheme"@) == Some(JsonView::Str("local"@)));
            assert(j.get("threads"@) == Some(threads_json(t)));
        },
        MasterView::Yarn => {
            assert(j.get("scheme"@) == Some(JsonView::Str("yarn"@)));
        },
        MasterView::Spark(hosts) => {
            let hs = Seq::new(hosts.len(), |i: int| host_json(hosts[i]));
            assert(j.get("scheme"@) == Some(JsonView::Str("spark"@)));
            assert(j.get("hosts"@) == Some(JsonView::Array(hs)));
            assert(j.array_at("hosts"@) == Some(hs));
            assert forall|i: int| 0 <= i < hs.len() implies entry_text(#[trigger] hs[i]) == (
            if hosts[i].host.len() == 0 {
                None
            } else {
                Some(host_text(hosts[i]))
            }) by {
                lemma_entry_text(hosts[i]);
            }
            if forall|i: int| 0 <= i < hosts.len() ==> (#[trigger] hosts[i]).host.len() > 0 {
                assert(Seq::new(hs.len(), |i: int| entry_text(hs[i])->0) =~= Seq::new(
                    hosts.len(),
                    |i: int| host_text(hosts[i]),
                ));
            } else {
                let i = choose|i: int|
                    0 <= i < hosts.len() && (#[trigger] hosts[i]).host.len() == 0;
                assert(entry_text(hs[i]) is None);
            }
        },
        MasterView::Other { scheme, master } => {
            assert(j.get("scheme"@) == Some(JsonView::Str(scheme)));
            assert(j.get("master"@) == Some(JsonView::Str(master)));
            assert(j.get("threads"@) is None);
        },
    }
}

/// The text of a host entry is that of the host.
proof fn lemma_entry_text(h: HostView)
    requires
        h.port matches Some(p) ==> p <= u32::MAX,
    ensures
        entry_text(host_json(h)) == (if h.host.len() == 0 {
            None
        } else {
            Some(host_text(h))
        }),
{
    reveal_strlit("host");
    reveal_strlit("port");
    assert("host"@[0] == 'h' && "port"@[0] == 'p');
    let j = host_json(h);
    assert(j.get("host"@) == Some(JsonView::Str(h.host)));
    assert(j.get("port"@) == Some(
        match h.port {
            Some(p) => JsonView::Int(p as int),
            None => JsonView::Null,
        },
    ));
}

/// The parts that options name for `op_build_master_url`. Absent threads mean one; a host without a port, and one whose port is no number, has none.
pub open spec fn named_parts(opts: JsonView) -> Option<MasterView> {
    match opts.str_at("scheme"@) {
        None => None,
        Some(scheme) => if scheme == "local"@ {
            match opts.get("threads"@) {
                None => Some(MasterView::Local(ThreadsView::Count(1))),
                Some(t) => if t == JsonView::Str("*"@) {
                    Some(MasterView::Local(ThreadsView::Star))
                } else {
                    match t.as_u64() {
                        Some(n) => Some(MasterView::Local(ThreadsView::Count(n as nat))),
                        None => None,
                    }
                },
            }
        } else if scheme == "yarn"@ {
            Some(MasterView::Yarn)
        } else if scheme == "spark"@ {
            match opts.array_at("hosts"@) {
                None => None,
                Some(hs) => if forall|i: int|
                    0 <= i < hs.len() ==> (#[trigger] hs[i]).str_at("host"@) is Some {
                    Some(MasterView::Spark(Seq::new(hs.len(), |i: int| named_host(hs[i]))))
                } else {
                    None
                },
            }
        } else {
            match opts.str_at("master"@) {
                None => None,
                Some(master) => Some(MasterView::Other { scheme, master }),
            }
        },
    }
}

/// The host that a host entry names.
pub open spec fn named_host(h: JsonView) -> HostView {
    HostView {
        host: h.str_at("host"@)->0,
        port: match h.u64_at("port"@) {
            Some(p) => Some(p as nat),
            None => None,
        },
    }
}

/// What is built from parts parses into those parts: for options that name the parts of
/// a plain master, `op_build_master_url` answers a URL, and `op_parse_master_url` gives
/// the same parts back for it.
pub proof fn law_parse_inverts_build(opts: JsonView, m: MasterView)
    requires
        named_parts(opts) == Some(m),
        plain_master(m),
    ensures
        built_master(opts) is Ok,
        parsed_master(built_master(opts)->Ok_0) == Ok::<JsonView, Seq<char>>(master_json(m)),
{
    if let MasterView::Spark(hosts) = m {
        let hs = opts.array_at("hosts"@)->0;
        assert forall|i: int| 0 <= i < hs.len() implies entry_text(#[trigger] hs[i]) == Some(
            host_text(hosts[i]),
        ) by {
            assert(plain_host(hosts[i]));
        }
        assert(Seq::new(hs.len(), |i: int| entry_text(hs[i])->0) =~= Seq::new(
            hosts.len(),
            |i: int| host_text(hosts[i]),
        ));
    }
    assert(url_of(opts) == Ok::<Seq<char>, Seq<char>>(master_text(m)));
    lemma_master_text(m);
    let b = built_master(opts)->Ok_0;
    assert(b.get("url"@) == Some(JsonView::Str(master_text(m))));
}

/// Whether a URL is the text of a plain master.
pub open spec fn canonical(url: Seq<char>) -> bool {
    exists|m: MasterView| plain_master(m) && url == #[trigger] master_text(m)
}

/// A URL as the answer of `op_build_master_url` holds it.
pub open spec fn url_json(url: Seq<char>) -> JsonView {
    JsonView::Object(map!["url"@ => JsonView::Str(url)])
}

/// Parsing a URL and building it again gives the URL back exactly where the URL is
/// the text of a plain master: `local[08]`, `spark://h:07077` and `spark://,` parse,
/// and build something else or nothing.
pub proof fn law_build_inverts_parse(url: Seq<char>)
    ensures
        canonical(url) <==> (parsed_master(url_json(url)) is Ok && built_master(
            parsed_master(url_json(url))->Ok_0,
        ) == Ok::<JsonView, Seq<char>>(url_json(url))),
{
    let given = url_json(url);
    assert(given.get("url"@) == Some(JsonView::Str(url)));
    if canonical(url) {
        let m = choose|m: MasterView| plain_master(m) && url == #[trigger] master_text(m);
        lemma_master_text(m);
        lemma_read_is_narrow(url);
        lemma_url_of_parts(m);
        if let MasterView::Spark(hosts) = m {
            assert forall|i: int| 0 <= i < hosts.len() implies (#[trigger] hosts[i]).host.len()
                > 0 by {
                assert(plain_host(hosts[i]));
            }
        }
    }
    if parsed_master(given) is Ok && built_master(parsed_master(given)->Ok_0) == Ok::<
        JsonView,
        Seq<char>,
    >(given) {
        let m = master_of(url)->Ok_0;
        let built = url_of(master_json(m))->Ok_0;
        assert(url_json(built).get("url"@) == Some(JsonView::Str(built)));
        assert(built == url);
        lemma_built_is_plain(url);
    }
}

/// A URL that is built again from what it says is the text of a plain master.
proof fn lemma_built_is_plain(url: Seq<char>)
    requires
        master_of(url) is Ok,
        url_of(master_json(master_of(url)->Ok_0)) == Ok::<Seq<char>, Seq<char>>(url),
    ensures
        plain_master(master_of(url)->Ok_0),
        url == master_text(master_of(url)->Ok_0),
{
    let m = master_of(url)->Ok_0;
    lemma_read_is_narrow(url);
    lemma_url_of_parts(m);
    lemma_word_text();
    match m {
        MasterView::Local(_) => {},
        MasterView::Yarn => {},
        MasterView::Spark(hosts) => {
            let i = find_from(url, "://"@, 0)->0;
            let rest = url.skip(i + "://"@.len());
            let pieces = split_on(rest, ',');
            lemma_join_split(rest, ',');
            assert forall|i: int| 0 <= i < hosts.len() implies plain_host(#[trigger] hosts[i]) by {
                let k = lemma_hosts_of_piece(pieces, i);
                assert(hosts[i].host.len() > 0);
                lemma_piece_is_plain(pieces[k]);
            }
        },
        MasterView::Other { scheme, master } => {
            let i = find_from(url, "://"@, 0)->0;
            lemma_find_occurs(url, "://"@, 0);
            reveal_strlit("://");
            assert(url.take(i) + "://"@ + url.skip(i + 3) =~= url) by {
                assert(url.subrange(i, i + 3) =~= "://"@);
            }
            if find_from(scheme, "://"@, 0) is Some {
                let k = find_from(scheme, "://"@, 0)->0;
                lemma_find_occurs(scheme, "://"@, 0);
                lemma_find_first(url, "://"@, 0, k);
                assert(url.subrange(k, k + 3) =~= scheme.subrange(k, k + 3));
            }
        },
    }
}

/// The host of a piece without a comma is plain where it is not empty.
proof fn lemma_piece_is_plain(piece: Seq<char>)
    requires
        !piece.contains(','),
        host_of(piece).host.len() > 0,
    ensures
        plain_host(host_of(piece)),
{
    lemma_rfind(piece, ':');
    let h = host_of(piece);
    assert forall|k: int| 0 <= k < h.host.len() implies h.host[k] != ',' by {
        assert(h.host[k] == piece[k]);
    }
}

/// What stands in the brackets of `local[…]` is read: a star, or a count of 32 bits, and
/// anything else is refused.
pub proof fn law_local_url_is_read(inner: Seq<char>)
    ensures
        ({
            let url = "local["@ + inner + "]"@;
            let count = parse_uint(inner, u32::MAX as nat);
            &&& inner == "*"@ ==> master_of(url) == Ok::<MasterView, Seq<char>>(
                MasterView::Local(ThreadsView::Star),
            )
            &&& count matches Some(n) ==> master_of(url) == Ok::<MasterView, Seq<char>>(
                MasterView::Local(ThreadsView::Count(n)),
            )
            &&& inner != "*"@ && count is None ==> master_of(url) is Err
        }),
        master_of("local"@) == Ok::<MasterView, Seq<char>>(MasterView::Local(ThreadsView::Count(1))),
        master_of("yarn"@) == Ok::<MasterView, Seq<char>>(MasterView::Yarn),
{
    let url = "local["@ + inner + "]"@;
    lemma_word_text();
    reveal_strlit("local");
    reveal_strlit("local[");
    reveal_strlit("]");
    reveal_strlit("*");
    assert(url.take(6) =~= "local["@);
    let t = url.skip(6);
    assert(t.skip(t.len() - 1) =~= "]"@);
    assert(in_brackets(url) =~= inner);
    assert(url.len() >= 7);
    if inner == "*"@ {
        assert("*"@[0] == '*');
    }
}

/// What follows `spark://` is a list of hosts between commas.
pub proof fn law_cluster_url_is_read(rest: Seq<char>)
    ensures
        master_of("spark://"@ + rest) == Ok::<MasterView, Seq<char>>(
            MasterView::Spark(hosts_of(split_on(rest, ','))),
        ),
{
    let url = "spark://"@ + rest;
    reveal_strlit("local");
    reveal_strlit("local[");
    reveal_strlit("yarn");
    reveal_strlit("spark");
    reveal_strlit("spark://");
    reveal_strlit("://");
    assert(url[0] == 's');
    assert("local"@[0] == 'l' && "yarn"@[0] == 'y');
    assert(!has_prefix(url, "local["@)) by {
        assert("local["@[0] == 'l');
        if has_prefix(url, "local["@) {
            assert(url.take(6)[0] == url[0]);
        }
    }
    assert(url.subrange(5, 8) =~= "://"@);
    assert forall|k: int| 0 <= k < 5 implies !occurs_at(url, "://"@, k) by {
        if occurs_at(url, "://"@, k) {
            assert(url.subrange(k, k + 3)[0] == url[k]);
            assert("://"@[0] == ':');
            assert(url[k] == "spark://"@[k]);
        }
    }
    lemma_find_is(url, "://"@, 0, 5);
    assert(url.take(5) =~= "spark"@);
    assert(url.skip(8) =~= rest);
}

/// Any other scheme, up to the first `://`, is kept with what follows as it stands.
pub proof fn law_other_url_is_read(scheme: Seq<char>, rest: Seq<char>)
    requires
        scheme != "spark"@,
        forall|k: int| 0 <= k < scheme.len() ==> !occurs_at(scheme, "://"@, k),
        !is_bracketed(scheme + "://"@ + rest),
    ensures
        master_of(scheme + "://"@ + rest) == Ok::<MasterView, Seq<char>>(
            MasterView::Other { scheme, master: rest },
        ),
{
    let url = scheme + "://"@ + rest;
    let n = scheme.len() as int;
    reveal_strlit("local");
    reveal_strlit("yarn");
    reveal_strlit("://");
    assert("://"@.len() == 3 && "://"@[0] == ':' && "://"@[1] == '/' && "://"@[2] == '/');
    assert(url[n] == ':');
    assert(forall|k: int| 0 <= k < 5 ==> "local"@[k] != ':');
    assert(forall|k: int| 0 <= k < 4 ==> "yarn"@[k] != ':');
    assert(url != "local"@);
    assert(url != "yarn"@);
    assert(url.subrange(n, n + 3) =~= "://"@);
    assert forall|k: int| 0 <= k < n implies !occurs_at(url, "://"@, k) by {
        if occurs_at(url, "://"@, k) {
            let o = url.subrange(k, k + 3);
            assert(o[1] == url[k + 1] && o[2] == url[k + 2]);
            if k + 3 <= n {
                assert(o =~= scheme.subrange(k, k + 3));
                assert(occurs_at(scheme, "://"@, k));
            }
        }
    }
    lemma_find_is(url, "://"@, 0, n);
    assert(url.take(n) =~= scheme);
    assert(url.skip(n + 3) =~= rest);
}

/// A text that is none of the known words, has no brackets behind `local` and holds no
/// `://` is no master URL.
pub proof fn law_no_url_is_refused(url: Seq<char>)
    requires
        url != "local"@,
        url != "yarn"@,
        !is_bracketed(url),
        forall|k: int| 0 <= k < url.len() ==> !occurs_at(url, "://"@, k),
    ensures
        master_of(url) is Err,
{
    reveal_strlit("://");
    lemma_find_occurs(url, "://"@, 0);
}

/// A URL has brackets behind `local` exactly where it starts with `local[` and ends with a
/// bracket of its own.
pub proof fn law_bracketed(url: Seq<char>)
    ensures
        is_bracketed(url) <==> exists|inner: Seq<char>| url == #[trigger] ("local["@ + inner)
            + "]"@,
{
    reveal_strlit("local[");
    reveal_strlit("]");
    if is_bracketed(url) {
        let t = url.skip(6);
        assert(t.skip(t.len() - 1) =~= "]"@);
        assert(t.skip(t.len() - 1)[0] == url[url.len() - 1]);
        let inner = in_brackets(url);
        assert(url =~= ("local["@ + inner) + "]"@) by {
            assert(url.take(6) =~= "local["@);
            assert forall|i: int| 0 <= i < 6 implies url[i] == "local["@[i] by {
                assert(url.take(6)[i] == url[i]);
            }
        }
    }
    if exists|inner: Seq<char>| url == #[trigger] ("local["@ + inner) + "]"@ {
        let inner = choose|inner: Seq<char>| url == #[trigger] ("local["@ + inner) + "]"@;
        assert(url.take(6) =~= "local["@);
        let t = url.skip(6);
        assert(t.skip(t.len() - 1) =~= "]"@);
    }
}

/// A host entry without a colon is a host without a port. In any other, what stands behind
/// the last colon is the port where it is a number of 32 bits, and otherwise the whole
/// entry is the host.
pub proof fn law_host_is_told_from_port(host: Seq<char>, tail: Seq<char>)
    requires
        !tail.contains(':'),
    ensures
        host_of(tail) == (HostView { host: tail, port: None }),
        parse_uint(tail, u32::MAX as nat) matches Some(p) ==> host_of(host + seq![':'] + tail) == (
        HostView { host, port: Some(p) }),
        parse_uint(tail, u32::MAX as nat) is None ==> host_of(host + seq![':'] + tail) == (
        HostView { host: host + seq![':'] + tail, port: None }),
{
    lemma_rfind(tail, ':');
    let hp = host + seq![':'] + tail;
    let n = host.len() as int;
    assert(hp[n] == ':');
    assert forall|k: int| n < k < hp.len() implies hp[k] != ':' by {
        assert(hp[k] == tail[k - n - 1]);
    }
    lemma_rfind_is(hp, ':', n);
    assert(hp.skip(n + 1) =~= tail);
    assert(hp.take(n) =~= host);
}

/// The hosts of a list are those of its entries, all of them and in order, but for the
/// empty ones.
pub proof fn law_hosts_in_order(a: Seq<Seq<char>>, b: Seq<Seq<char>>, one: Seq<char>)
    ensures
        hosts_of(a + b) == hosts_of(a) + hosts_of(b),
        hosts_of(Seq::<Seq<char>>::empty()).len() == 0,
        one.len() == 0 ==> hosts_of(seq![one]).len() == 0,
        one.len() > 0 ==> hosts_of(seq![one]) == seq![host_of(one)],
    decreases b.len(),
{
    let e = Seq::<Seq<char>>::empty();
    assert(seq![one].drop_last() =~= e);
    assert(hosts_of(e) =~= Seq::<HostView>::empty());
    assert(hosts_of(seq![one].drop_last()) =~= Seq::<HostView>::empty());
    assert(Seq::<HostView>::empty().push(host_of(one)) =~= seq![host_of(one)]);
    if b.len() == 0 {
        assert(a + b =~= a);
        assert(hosts_of(a) + hosts_of(b) =~= hosts_of(a));
    } else {
        let t = b.drop_last();
        law_hosts_in_order(a, t, one);
        assert((a + b).drop_last() =~= a + t);
        assert((a + b).last() == b.last());
        assert(hosts_of(a + b) =~= hosts_of(a) + hosts_of(b));
    }
}

/// What a parsed URL is answered with: its scheme, and the threads, the hosts or the
/// address that go with it; and nothing else.
pub proof fn law_parsed_answer(m: MasterView, key: Seq<char>)
    ensures
        ({
            let a = master_json(m);
            match m {
                MasterView::Local(t) => {
                    &&& a.get("scheme"@) == Some(JsonView::Str("local"@))
                    &&& t is Star ==> a.get("threads"@) == Some(JsonView::Str("*"@))
                    &&& t matches ThreadsView::Count(n) ==> a.get("threads"@) == Some(
                        JsonView::Int(n as int),
                    )
                    &&& a.get(key) is Some ==> key == "scheme"@ || key == "threads"@
                },
                MasterView::Yarn => {
                    &&& a.get("scheme"@) == Some(JsonView::Str("yarn"@))
                    &&& a.get(key) is Some ==> key == "scheme"@
                },
                MasterView::Spark(hosts) => {
                    &&& a.get("scheme"@) == Some(JsonView::Str("spark"@))
                    &&& a.array_at("hosts"@) is Some
                    &&& a.array_at("hosts"@)->0.len() == hosts.len()
                    &&& forall|i: int|
                        0 <= i < hosts.len() ==> is_host_entry(
                            #[trigger] a.array_at("hosts"@)->0[i],
                            hosts[i],
                            key,
                        )
                    &&& a.get(key) is Some ==> key == "scheme"@ || key == "hosts"@
                },
                MasterView::Other { scheme, master } => {
                    &&& a.get("scheme"@) == Some(JsonView::Str(scheme))
                    &&& a.get("master"@) == Some(JsonView::Str(master))
                    &&& a.get(key) is Some ==> key == "scheme"@ || key == "master"@
                },
            }
        }),
{
    reveal_strlit("scheme");
    reveal_strlit("threads");
    reveal_strlit("hosts");
    reveal_strlit("master");
    reveal_strlit("host");
    reveal_strlit("port");
    assert("scheme"@.len() == 6 && "threads"@.len() == 7 && "hosts"@.len() == 5 && "master"@.len()
        == 6);
    assert("scheme"@[0] == 's' && "master"@[0] == 'm');
    assert("host"@[0] == 'h' && "port"@[0] == 'p');
    if let MasterView::Spark(hosts) = m {
        let list = Seq::new(hosts.len(), |i: int| host_json(hosts[i]));
        assert(master_json(m).get("hosts"@) == Some(JsonView::Array(list)));
        assert forall|i: int| 0 <= i < hosts.len() implies is_host_entry(
            #[trigger] list[i],
            hosts[i],
            key,
        ) by {}
    }
}

/// Whether a value tells of a host: its name, its port or a null, and nothing else.
pub open spec fn is_host_entry(v: JsonView, h: HostView, key: Seq<char>) -> bool {
    &&& v.get("host"@) == Some(JsonView::Str(h.host))
    &&& h.port matches Some(p) ==> v.get("port"@) == Some(JsonView::Int(p as int))
    &&& h.port is None ==> v.get("port"@) == Some(JsonView::Null)
    &&& v.get(key) is Some ==> key == "host"@ || key == "port"@
}

/// What a URL is built as, by its scheme: the word `local` with its threads in brackets
/// unless they are one or absent; the word `yarn`; the hosts between commas, each with its
/// port where it has one; or the scheme and the address. It is refused exactly where what
/// the scheme asks for is not there.
pub proof fn law_built_url(opts: JsonView, key: Seq<char>)
    ensures
        built_master(opts) matches Ok(a) ==> (a.get(key) is Some ==> key == "url"@),
        opts.str_at("scheme"@) is None ==> built_master(opts) is Err,
        opts.str_at("scheme"@) == Some("yarn"@) ==> builds(opts, "yarn"@),
        opts.str_at("scheme"@) == Some("local"@) ==> match opts.get("threads"@) {
            None => builds(opts, "local"@),
            Some(JsonView::Int(n)) => if n == 1 {
                builds(opts, "local"@)
            } else if 0 <= n <= u64::MAX {
                builds(opts, "local["@ + dec(n as nat) + "]"@)
            } else {
                built_master(opts) is Err
            },
            Some(JsonView::Str(s)) => if s == "*"@ {
                builds(opts, "local[*]"@)
            } else {
                built_master(opts) is Err
            },
            Some(_) => built_master(opts) is Err,
        },
        opts.str_at("scheme"@) matches Some(scheme) ==> (scheme != "local"@ && scheme != "yarn"@
            && scheme != "spark"@ ==> match opts.str_at("master"@) {
            Some(master) => builds(opts, scheme + "://"@ + master),
            None => built_master(opts) is Err,
        }),
{
    reveal_strlit("local");
    reveal_strlit("yarn");
    reveal_strlit("spark");
    assert("local"@[0] == 'l' && "yarn"@[0] == 'y' && "spark"@[0] == 's');
}

/// Whether the answer for options is the given URL.
pub open spec fn builds(opts: JsonView, url: Seq<char>) -> bool {
    built_master(opts) is Ok && built_master(opts)->Ok_0.str_at("url"@) == Some(url)
}

/// The URL of a cluster holds every host that is given, in order, each with its port where
/// it has one; and is refused exactly where there is no host, or one without a name.
pub proof fn law_built_cluster(opts: JsonView, entries: Seq<JsonView>, texts: Seq<Seq<char>>)
    requires
        opts.str_at("scheme"@) == Some("spark"@),
        opts.array_at("hosts"@) == Some(entries),
        entries.len() == texts.len(),
        forall|i: int|
            0 <= i < entries.len() && (#[trigger] entries[i]).str_at("host"@) is Some ==> texts[i]
                == (if entries[i].u64_at("port"@) is Some {
                entries[i].str_at("host"@)->0 + seq![':'] + dec(
                    entries[i].u64_at("port"@)->0 as nat,
                )
            } else {
                entries[i].str_at("host"@)->0
            }),
    ensures
        built_master(opts) is Err <==> (entries.len() == 0 || exists|i: int|
            0 <= i < entries.len() && ((#[trigger] entries[i]).str_at("host"@) is None
                || entries[i].str_at("host"@)->0.len() == 0)),
        built_master(opts) is Ok ==> builds(opts, "spark://"@ + join(texts, seq![','])),
{
    reveal_strlit("local");
    reveal_strlit("yarn");
    reveal_strlit("spark");
    reveal_strlit(":");
    reveal_strlit(",");
    assert(":"@ =~= seq![':']);
    assert(","@ =~= seq![',']);
    assert("local"@[0] == 'l' && "yarn"@[0] == 'y' && "spark"@[0] == 's');
    assert forall|i: int| 0 <= i < entries.len() implies (entry_text(#[trigger] entries[i]) is None
        <==> (entries[i].str_at("host"@) is None || entries[i].str_at("host"@)->0.len() == 0))
        by {}
    if built_master(opts) is Ok {
        let all = Seq::new(entries.len(), |i: int| entry_text(entries[i])->0);
        assert forall|i: int| 0 <= i < entries.len() implies all[i] == texts[i] by {
            assert(entry_text(entries[i]) is Some);
        }
        assert(all =~= texts);
    }
    if exists|i: int| 0 <= i < entries.len() && entry_text(#[trigger] entries[i]) is None {
        let i = choose|i: int| 0 <= i < entries.len() && entry_text(#[trigger] entries[i]) is None;
        assert(entries[i].str_at("host"@) is None || entries[i].str_at("host"@)->0.len() == 0);
    }
}

/// A cluster is refused without a list of hosts.
pub proof fn law_cluster_needs_hosts(opts: JsonView)
    requires
        opts.str_at("scheme"@) == Some("spark"@),
        opts.array_at("hosts"@) is None,
    ensures
        built_master(opts) is Err,
{
    reveal_strlit("local");
    reveal_strlit("yarn");
    reveal_strlit("spark");
    assert("local"@[0] == 'l' && "yarn"@[0] == 'y' && "spark"@[0] == 's');
}

/// A URL is read from `url`, and from `master` where there is no `url`; what is read of it
/// is the answer.
pub proof fn law_url_is_named_by_options(opts: JsonView)
    ensures
        opts.get("url"@) matches Some(JsonView::Str(s)) ==> is_answer(opts, s),
        opts.get("url"@) is None ==> (opts.get("master"@) matches Some(JsonView::Str(s))
            ==> is_answer(opts, s)),
        opts.get("url"@) matches Some(v) ==> (!(v is Str) ==> parsed_master(opts) is Err),
        opts.get("url"@) is None && opts.get("master"@) is None ==> parsed_master(opts) is Err,
{
}

/// Whether the answer for options is what is read of the given URL.
pub open spec fn is_answer(opts: JsonView, url: Seq<char>) -> bool {
    match master_of(url) {
        Ok(m) => parsed_master(opts) == Ok::<JsonView, Seq<char>>(master_json(m)),
        Err(e) => parsed_master(opts) == Err::<JsonView, Seq<char>>(e),
    }
}

/// The operations on master URLs answer what they come to.
pub proof fn law_operations(opts: Json, r: Result<Json, Error>)
    ensures
        call_ensures(op_parse_master_url, (opts,), r) ==> outcome(r) == parsed_master(opts@),
        call_ensures(op_build_master_url, (opts,), r) ==> outcome(r) == built_master(opts@),
{
}

/// URLs and parts are refused in words that show what is wrong with them.
pub proof fn law_refusals(opts: JsonView, url: Seq<char>)
    ensures
        master_of(url) matches Err(e) ==> if is_bracketed(url) {
            e == "invalid local thread count `"@ + url.subrange(6, url.len() - 1) + "`"@
        } else {
            e == "not a Spark master URL: "@ + url
        },
        opts.get("url"@) is None && opts.get("master"@) is None ==> parsed_master(opts) == Err::<
            JsonView,
            Seq<char>,
        >("missing url"@),
        built_master(opts) matches Err(e) ==> match opts.str_at("scheme"@) {
            None => e == "missing scheme"@,
            Some(scheme) => if scheme == "local"@ {
                match opts.get("threads"@) {
                    Some(JsonView::Int(_)) | Some(JsonView::Float(_)) => e
                        == "invalid thread count"@,
                    Some(t) => e == "invalid threads value: "@ + encoded_text(t),
                    None => false,
                }
            } else if scheme == "spark"@ {
                if opts.array_at("hosts"@) is None || opts.array_at("hosts"@)->0.len() == 0 {
                    e == "spark scheme requires a non-empty hosts list"@
                } else {
                    e == "host entry missing `host`"@
                }
            } else {
                e == "`"@ + scheme + "` scheme requires a master address"@
            },
        },
{
    reveal_strlit("local[");
    reveal_strlit("]");
    reveal_strlit("local");
    reveal_strlit("spark");
    reveal_strlit("yarn");
    assert("local"@[0] == 'l' && "yarn"@[0] == 'y' && "spark"@[0] == 's');
}

} // verus!
