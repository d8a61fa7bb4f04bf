//! The web dashboard: its routes, the queries behind them and its fixed replies.

use vstd::prelude::*;

use crate::paths::join;
use crate::paths::joined;
use crate::paths::opt_str;
use crate::process::opt_text;
use crate::text::chars_of;
use crate::text::decimal;
use crate::text::is_digit;
use crate::text::lemma_decimal_digits;
use crate::text::lemma_decimal_value;
use crate::text::numeral_value;
use crate::text::push_decimal;
use crate::text::push_signed_decimal;
use crate::text::same_text;
use crate::text::signed_decimal;
use crate::VERSION;

verus! {

/// The window of a query in seconds, unless the request gives one.
pub fn default_window() -> (secs: i64)
    ensures
        secs == 300,
{
    300
}

/// The number of entries of a ranking, unless the request gives one.
pub fn default_limit() -> (limit: i64)
    ensures
        limit == 10,
{
    10
}

/// The window of a timeline in seconds, unless the request gives one.
pub fn default_timeline_window() -> (secs: i64)
    ensures
        secs == 3600,
{
    3600
}

/// The parameters of a request about a window of time.
#[derive(Debug, Clone)]
pub struct WindowParams {
    pub window: i64,
    pub user: Option<String>,
}

impl WindowParams {
    /// The parameters of a request, with the default for what it leaves out.
    pub fn new(window: Option<i64>, user: Option<String>) -> (params: WindowParams)
        ensures
            params.window == (match window {
                Some(secs) => secs,
                None => 300,
            }),
            params.user == user,
    {
        let secs: i64 = match window {
            Some(secs) => secs,
            None => default_window(),
        };
        WindowParams { window: secs, user }
    }
}

/// The parameters of a request for a ranking.
#[derive(Debug, Clone)]
pub struct TopParams {
    pub window: i64,
    pub limit: i64,
    pub user: Option<String>,
}

impl TopParams {
    /// The parameters of a request, with the defaults for what it leaves out.
    pub fn new(window: Option<i64>, limit: Option<i64>, user: Option<String>) -> (params: TopParams)
        ensures
            params.window == (match window {
                Some(secs) => secs,
                None => 300,
            }),
            params.limit == (match limit {
                Some(n) => n,
                None => 10,
            }),
            params.user == user,
    {
        let secs: i64 = match window {
            Some(secs) => secs,
            None => default_window(),
        };
        let entries: i64 = match limit {
            Some(n) => n,
            None => default_limit(),
        };
        TopParams { window: secs, limit: entries, user }
    }
}

/// The parameters of a request for the timeline of a process.
#[derive(Debug, Clone)]
pub struct TimelineParams {
    pub pid: i64,
    pub window: i64,
}

impl TimelineParams {
    /// The parameters of a request, with the default for what it leaves out.
    pub fn new(pid: i64, window: Option<i64>) -> (params: TimelineParams)
        ensures
            params.pid == pid,
            params.window == (match window {
                Some(secs) => secs,
                None => 3600,
            }),
    {
        let secs: i64 = match window {
            Some(secs) => secs,
            None => default_timeline_window(),
        };
        TimelineParams { pid, window: secs }
    }
}

/// The user name that stands for all system users.
pub const SYSTEM_USER: &'static str = "__system";

/// The condition on the users whose names begin with an underscore. The backslash takes
/// the underscore's meaning as a wildcard away, once it is declared to be the escape
/// character.
pub const SYSTEM_CLAUSE: &'static str = " AND user_name LIKE '\\_%'";

/// The declaration of the backslash as the escape character of the pattern before it.
/// DuckDB has none by default.
pub const ESCAPE_CLAUSE: &'static str = " ESCAPE '\\'";

/// A text with every apostrophe doubled.
pub open spec fn doubled(text: Seq<char>) -> Seq<char>
    decreases text.len(),
{
    if text.len() == 0 {
        Seq::empty()
    } else if text.last() == '\'' {
        doubled(text.drop_last()).push('\'').push('\'')
    } else {
        doubled(text.drop_last()).push(text.last())
    }
}

fn push_doubled(out: &mut String, text: &str)
    ensures
        final(out)@ == old(out)@ + doubled(text@),
{
    let chars = chars_of(text);
    let ghost start = out@;
    let mut i: usize = 0;
    assert(out@ =~= start + doubled(text@.take(0)));
    while i < chars.len()
        invariant
            chars@ == text@,
            i <= chars.len(),
            out@ == start + doubled(text@.take(i as int)),
        decreases chars.len() - i,
    {
        assert(text@.take(i + 1).drop_last() =~= text@.take(i as int));
        assert(text@.take(i + 1).last() == chars@[i as int]);
        if chars[i] == '\'' {
            out.push('\'');
        }
        out.push(chars[i]);
        i = i + 1;
        assert(out@ =~= start + doubled(text@.take(i as int)));
    }
    assert(text@.take(i as int) =~= text@);
}

/// The condition that a query puts on the user, behind another one. There is none for all
/// users.
pub open spec fn user_condition(user: Option<Seq<char>>) -> Seq<char> {
    match user {
        Some(name) => if name == SYSTEM_USER@ {
            SYSTEM_CLAUSE@
        } else if name.len() > 0 {
            " AND user_name = '"@ + doubled(name) + "'"@
        } else {
            Seq::empty()
        },
        None => Seq::empty(),
    }
}

/// The condition that a query puts on the user.
pub fn user_clause(user: Option<&str>) -> (clause: String)
    ensures
        clause@ == user_condition(opt_str(user)),
{
    match user {
        Some(name) => {
            if same_text(name, SYSTEM_USER) {
                return SYSTEM_CLAUSE.to_owned();
            }
            if name.is_empty() {
                return String::new();
            }
            let mut clause = " AND user_name = '".to_owned();
            push_doubled(&mut clause, name);
            clause.append("'");
            clause
        },
        None => String::new(),
    }
}

/// The condition on the user as it stands in a query: with the escape character that its
/// pattern, if it has one, is written with.
pub open spec fn user_filter(user: Option<Seq<char>>) -> Seq<char> {
    if user == Some(SYSTEM_USER@) {
        user_condition(user) + ESCAPE_CLAUSE@
    } else {
        user_condition(user)
    }
}

fn push_user_filter(out: &mut String, user: &Option<String>)
    ensures
        final(out)@ == old(out)@ + user_filter(opt_text(*user)),
{
    let name = match user {
        Some(name) => Some(name.as_str()),
        None => None,
    };
    let clause = user_clause(name);
    out.append(clause.as_str());
    if let Some(text) = name {
        if same_text(text, SYSTEM_USER) {
            out.append(ESCAPE_CLAUSE);
            assert(out@ =~= old(out)@ + user_filter(opt_text(*user)));
        }
    }
}

/// The statement that lets queries read all data files of a directory.
pub open spec fn view_statement(data_dir: Seq<char>) -> Seq<char> {
    "CREATE VIEW proc_metrics AS SELECT * FROM read_parquet('"@ + joined(data_dir, "*.parquet"@)
        + "', union_by_name=true);"@
}

/// The statement that opens the data directory for queries.
pub fn open_db(data_dir: &str) -> (sql: String)
    ensures
        sql@ == view_statement(data_dir@),
{
    let pattern = join(data_dir, "*.parquet");
    let mut sql = "CREATE VIEW proc_metrics AS SELECT * FROM read_parquet('".to_owned();
    sql.append(pattern.as_str());
    sql.append("', union_by_name=true);");
    sql
}

/// The query for the summary, up to the start of its window.
pub const SUMMARY_HEAD: &'static str = "SELECT
            count(DISTINCT pid) as active_procs,
            coalesce(sum(cpu_percent), 0.0) as total_cpu,
            coalesce(sum(mem_rss), 0) as total_rss
         FROM (
             SELECT pid, avg(cpu_percent) as cpu_percent, max(mem_rss) as mem_rss
             FROM proc_metrics
             WHERE ts > ";

/// The rest of the query for the summary, behind its conditions.
pub const SUMMARY_TAIL: &'static str = "
             GROUP BY pid
         )";

/// The query for a ranking, up to the start of its window.
pub const TOP_HEAD: &'static str = "SELECT name, user_name,
                round(avg(cpu_percent), 2) as avg_cpu,
                max(mem_rss) as peak_rss,
                count(DISTINCT pid) as instances
         FROM proc_metrics
         WHERE ts > ";

/// The rest of the query for the ranking by CPU usage, up to the number of its entries.
pub const TOP_CPU_TAIL: &'static str = "
         GROUP BY name, user_name
         ORDER BY avg_cpu DESC
         LIMIT ";

/// The rest of the query for the ranking by memory, up to the number of its entries.
pub const TOP_MEM_TAIL: &'static str = "
         GROUP BY name, user_name
         ORDER BY peak_rss DESC
         LIMIT ";

/// The query for a timeline, up to the process id.
pub const TIMELINE_HEAD: &'static str = "SELECT ts, round(cpu_percent, 2) as cpu_percent, mem_rss
         FROM proc_metrics
         WHERE pid = ";

/// The rest of the query for a timeline, behind its conditions.
pub const TIMELINE_TAIL: &'static str = "
         ORDER BY ts";

/// The query for the users, up to the start of its window.
pub const USERS_HEAD: &'static str = "SELECT DISTINCT coalesce(user_name, '') as user_name
         FROM proc_metrics
         WHERE ts > ";

/// The rest of the query for the users, behind its condition.
pub const USERS_TAIL: &'static str = "
         ORDER BY user_name";

/// The query for the processes, up to the start of its window.
pub const PROCESSES_HEAD: &'static str = "SELECT DISTINCT pid, name, user_name, max(ts) as last_seen
         FROM proc_metrics
         WHERE ts > ";

/// The rest of the query for the processes, behind its conditions.
pub const PROCESSES_TAIL: &'static str = "
         GROUP BY pid, name, user_name
         ORDER BY name";

/// The query for the summary of the window that starts at `cutoff`: the number of active
/// processes, their CPU usage and their memory.
pub fn api_summary(cutoff: &str, params: &WindowParams) -> (sql: String)
    ensures
        sql@ == SUMMARY_HEAD@ + cutoff@ + user_filter(opt_text(params.user)) + SUMMARY_TAIL@,
{
    let mut sql = SUMMARY_HEAD.to_owned();
    sql.append(cutoff);
    push_user_filter(&mut sql, &params.user);
    sql.append(SUMMARY_TAIL);
    sql
}

/// The query for the processes with the highest average CPU usage in the window that starts
/// at `cutoff`.
pub fn api_top_cpu(cutoff: &str, params: &TopParams) -> (sql: String)
    ensures
        sql@ == TOP_HEAD@ + cutoff@ + user_filter(opt_text(params.user)) + TOP_CPU_TAIL@
            + signed_decimal(params.limit as int),
{
    let mut sql = TOP_HEAD.to_owned();
    sql.append(cutoff);
    push_user_filter(&mut sql, &params.user);
    sql.append(TOP_CPU_TAIL);
    push_signed_decimal(&mut sql, params.limit);
    sql
}

/// The query for the processes with the highest memory in the window that starts at
/// `cutoff`.
pub fn api_top_mem(cutoff: &str, params: &TopParams) -> (sql: String)
    ensures
        sql@ == TOP_HEAD@ + cutoff@ + user_filter(opt_text(params.user)) + TOP_MEM_TAIL@
            + signed_decimal(params.limit as int),
{
    let mut sql = TOP_HEAD.to_owned();
    sql.append(cutoff);
    push_user_filter(&mut sql, &params.user);
    sql.append(TOP_MEM_TAIL);
    push_signed_decimal(&mut sql, params.limit);
    sql
}

/// The query for the timeline of one process in the window that starts at `cutoff`.
pub fn api_timeline(cutoff: &str, params: &TimelineParams) -> (sql: String)
    ensures
        sql@ == TIMELINE_HEAD@ + signed_decimal(params.pid as int) + " AND ts > "@ + cutoff@
            + TIMELINE_TAIL@,
{
    let mut sql = TIMELINE_HEAD.to_owned();
    push_signed_decimal(&mut sql, params.pid);
    sql.append(" AND ts > ");
    sql.append(cutoff);
    sql.append(TIMELINE_TAIL);
    sql
}

/// The query for the users in the window that starts at `cutoff`.
pub fn api_users(cutoff: &str) -> (sql: String)
    ensures
        sql@ == USERS_HEAD@ + cutoff@ + USERS_TAIL@,
{
    let mut sql = USERS_HEAD.to_owned();
    sql.append(cutoff);
    sql.append(USERS_TAIL);
    sql
}

/// The query for the processes in the window that starts at `cutoff`.
pub fn api_processes(cutoff: &str, params: &WindowParams) -> (sql: String)
    ensures
        sql@ == PROCESSES_HEAD@ + cutoff@ + user_filter(opt_text(params.user)) + PROCESSES_TAIL@,
{
    let mut sql = PROCESSES_HEAD.to_owned();
    sql.append(cutoff);
    push_user_filter(&mut sql, &params.user);
    sql.append(PROCESSES_TAIL);
    sql
}

/// A reply of the server: the HTTP status and the JSON text of the body.
#[derive(Debug, Clone)]
pub struct Reply {
    pub status: u16,
    pub body: String,
}

/// A JSON object with a status and the version.
pub open spec fn status_body(status: Seq<char>) -> Seq<char> {
    "{\"status\":\""@ + status + "\",\"version\":\""@ + VERSION@ + "\"}"@
}

fn make_status_body(status: &str) -> (body: String)
    ensures
        body@ == status_body(status@),
{
    let mut body = "{\"status\":\"".to_owned();
    body.append(status);
    body.append("\",\"version\":\"");
    body.append(VERSION);
    body.append("\"}");
    body
}

/// The answer to the question whether the process is up: always yes.
pub fn health_live() -> (reply: Reply)
    ensures
        reply.status == 200,
        reply.body@ == status_body("ok"@),
{
    Reply { status: 200, body: make_status_body("ok") }
}

/// The answer to the question whether queries can be served, given whether the data
/// directory could be opened.
pub fn health_ready(opened: bool) -> (reply: Reply)
    ensures
        opened ==> reply.status == 200 && reply.body@ == status_body("ready"@),
        !opened ==> reply.status == 503 && reply.body@ == status_body("unavailable"@),
{
    if opened {
        Reply { status: 200, body: make_status_body("ready") }
    } else {
        Reply { status: 503, body: make_status_body("unavailable") }
    }
}

/// What went wrong with a request. It is for the log alone.
#[derive(Debug, Clone)]
pub struct AppError {
    pub detail: String,
}

/// The body of every reply to a request that failed.
pub const ERROR_BODY: &'static str = "{\"error\":\"internal server error\"}";

impl AppError {
    /// The reply to a request that failed. It is the same whatever went wrong, so that no
    /// detail gets out.
    pub fn into_response(self) -> (reply: Reply)
        ensures
            reply.status == 500,
            reply.body@ == ERROR_BODY@,
    {
        Reply { status: 500, body: ERROR_BODY.to_owned() }
    }
}

/// What a request can ask for.
#[derive(Debug, Clone, Copy, PartialEq, Eq, Structural)]
pub enum Endpoint {
    Index,
    HealthLive,
    HealthReady,
    Summary,
    TopCpu,
    TopMem,
    Timeline,
    Processes,
    Users,
}

/// The data queries, each with its path behind a prefix.
pub open spec fn api_routes() -> Seq<(Seq<char>, Endpoint)> {
    seq![
        ("/summary"@, Endpoint::Summary),
        ("/top"@, Endpoint::TopCpu),
        ("/top-mem"@, Endpoint::TopMem),
        ("/timeline"@, Endpoint::Timeline),
        ("/processes"@, Endpoint::Processes),
        ("/users"@, Endpoint::Users),
    ]
}

/// Routes with a prefix in front of their paths.
pub open spec fn nested(prefix: Seq<char>, routes: Seq<(Seq<char>, Endpoint)>) -> Seq<
    (Seq<char>, Endpoint),
> {
    routes.map_values(|r: (Seq<char>, Endpoint)| (prefix + r.0, r.1))
}

/// All routes of the server.
pub open spec fn routes() -> Seq<(Seq<char>, Endpoint)> {
    seq![
        ("/"@, Endpoint::Index),
        ("/health/live"@, Endpoint::HealthLive),
        ("/health/ready"@, Endpoint::HealthReady),
        ("/health"@, Endpoint::HealthLive),
    ] + nested("/api/v1"@, api_routes()) + nested("/api"@, api_routes())
}

/// The contents of a list of routes.
pub open spec fn route_views(list: Seq<(String, Endpoint)>) -> Seq<(Seq<char>, Endpoint)> {
    list.map_values(|r: (String, Endpoint)| (r.0@, r.1))
}

fn push_route(list: &mut Vec<(String, Endpoint)>, prefix: &str, path: &str, endpoint: Endpoint)
    ensures
        route_views(final(list)@) == route_views(old(list)@).push((prefix@ + path@, endpoint)),
{
    let mut full = prefix.to_owned();
    full.append(path);
    list.push((full, endpoint));
    assert(route_views(list@) =~= route_views(old(list)@).push((prefix@ + path@, endpoint)));
}

fn push_api_routes(list: &mut Vec<(String, Endpoint)>, prefix: &str)
    ensures
        route_views(final(list)@) == route_views(old(list)@) + nested(prefix@, api_routes()),
{
    push_route(list, prefix, "/summary", Endpoint::Summary);
    push_route(list, prefix, "/top", Endpoint::TopCpu);
    push_route(list, prefix, "/top-mem", Endpoint::TopMem);
    push_route(list, prefix, "/timeline", Endpoint::Timeline);
    push_route(list, prefix, "/processes", Endpoint::Processes);
    push_route(list, prefix, "/users", Endpoint::Users);
    assert(route_views(list@) =~= route_views(old(list)@) + nested(prefix@, api_routes()));
}

/// The routes of the server. The data queries are served under `/api/v1` and, for the
/// dashboard, under `/api`.
pub fn router() -> (list: Vec<(String, Endpoint)>)
    ensures
        route_views(list@) == routes(),
        list@.len() == routes().len(),
        forall|i: int|
            0 <= i < list@.len() ==> (#[trigger] list@[i]).0@ == routes()[i].0 && list@[i].1
                == routes()[i].1,
{
    let mut list: Vec<(String, Endpoint)> = Vec::new();
    push_route(&mut list, "", "/", Endpoint::Index);
    push_route(&mut list, "", "/health/live", Endpoint::HealthLive);
    push_route(&mut list, "", "/health/ready", Endpoint::HealthReady);
    push_route(&mut list, "", "/health", Endpoint::HealthLive);
    proof {
        reveal_strlit("");
        assert(""@ + "/"@ =~= "/"@);
        assert(""@ + "/health/live"@ =~= "/health/live"@);
        assert(""@ + "/health/ready"@ =~= "/health/ready"@);
        assert(""@ + "/health"@ =~= "/health"@);
        assert(route_views(list@) =~= seq![
            ("/"@, Endpoint::Index),
            ("/health/live"@, Endpoint::HealthLive),
            ("/health/ready"@, Endpoint::HealthReady),
            ("/health"@, Endpoint::HealthLive),
        ]);
    }
    push_api_routes(&mut list, "/api/v1");
    push_api_routes(&mut list, "/api");
    assert forall|i: int| 0 <= i < list@.len() implies (#[trigger] list@[i]).0@ == routes()[i].0
        && list@[i].1 == routes()[i].1 by {
        assert(route_views(list@)[i] == (list@[i].0@, list@[i].1));
    }
    list
}

/// The address that the server listens on.
pub open spec fn address(bind: Seq<char>, port: u16) -> Seq<char> {
    bind + ":"@ + decimal(port as nat)
}

/// The address that the server listens on.
pub fn listen_address(bind: &str, port: u16) -> (text: String)
    ensures
        text@ == address(bind@, port),
{
    let mut text = bind.to_owned();
    text.append(":");
    push_decimal(&mut text, port as u64);
    text
}

/// The message for an address that is none, where `detail` says why.
pub fn invalid_bind_address(bind: &str, port: u16, detail: &str) -> (text: String)
    ensures
        text@ == "invalid bind address "@ + address(bind@, port) + ": "@ + detail@,
{
    let mut text = "invalid bind address ".to_owned();
    let place = listen_address(bind, port);
    text.append(place.as_str());
    text.append(": ");
    text.append(detail);
    text
}

/// Whether an SQL text literal that is written as `text` between apostrophes ends with the
/// last of them, and what it stands for: two apostrophes stand for one.
pub open spec fn literal_value(text: Seq<char>) -> Option<Seq<char>>
    decreases text.len(),
{
    if text.len() == 0 {
        Some(Seq::empty())
    } else if text[0] == '\'' {
        if text.len() >= 2 && text[1] == '\'' {
            match literal_value(text.skip(2)) {
                Some(rest) => Some(seq!['\''] + rest),
                None => None,
            }
        } else {
            None
        }
    } else {
        match literal_value(text.skip(1)) {
            Some(rest) => Some(seq![text[0]] + rest),
            None => None,
        }
    }
}

proof fn lemma_doubled_from_front(text: Seq<char>)
    requires
        text.len() > 0,
    ensures
        doubled(text) == (if text[0] == '\'' {
            seq!['\'', '\'']
        } else {
            seq![text[0]]
        }) + doubled(text.skip(1)),
    decreases text.len(),
{
    let head = if text[0] == '\'' {
        seq!['\'', '\'']
    } else {
        seq![text[0]]
    };
    if text.len() == 1 {
        assert(text.drop_last() =~= Seq::<char>::empty());
        assert(text.skip(1) =~= Seq::<char>::empty());
        assert(doubled(text.drop_last()) =~= Seq::<char>::empty());
        assert(doubled(text) =~= head + doubled(text.skip(1)));
    } else {
        lemma_doubled_from_front(text.drop_last());
        assert(text.drop_last().skip(1) =~= text.skip(1).drop_last());
        assert(text.skip(1).last() == text.last());
        assert(doubled(text) =~= head + doubled(text.skip(1)));
    }
}

/// No user name can leave the literal that it stands in: the literal ends where it should,
/// and it stands for exactly that name.
pub proof fn law_user_name_stays_in_its_literal(name: Seq<char>)
    ensures
        literal_value(doubled(name)) == Some(name),
    decreases name.len(),
{
    let text = doubled(name);
    if name.len() > 0 {
        lemma_doubled_from_front(name);
        law_user_name_stays_in_its_literal(name.skip(1));
        if name[0] == '\'' {
            assert(text.skip(2) =~= doubled(name.skip(1)));
            assert(seq!['\''] + name.skip(1) =~= name);
        } else {
            assert(text.skip(1) =~= doubled(name.skip(1)));
            assert(seq![name[0]] + name.skip(1) =~= name);
        }
    }
}

/// Whether a text matches an SQL pattern: a percent sign stands for any characters, an
/// underscore for one, and what follows the escape character for itself.
pub open spec fn like(text: Seq<char>, pattern: Seq<char>, escape: char) -> bool
    decreases pattern.len(), text.len(),
{
    if pattern.len() == 0 {
        text.len() == 0
    } else if pattern[0] == escape {
        &&& pattern.len() >= 2
        &&& text.len() > 0
        &&& text[0] == pattern[1]
        &&& like(text.skip(1), pattern.skip(2), escape)
    } else if pattern[0] == '%' {
        ||| like(text, pattern.skip(1), escape)
        ||| text.len() > 0 && like(text.skip(1), pattern, escape)
    } else {
        &&& text.len() > 0
        &&& pattern[0] == '_' || text[0] == pattern[0]
        &&& like(text.skip(1), pattern.skip(1), escape)
    }
}

proof fn lemma_percent_matches_all(text: Seq<char>, escape: char)
    requires
        escape != '%',
    ensures
        like(text, seq!['%'], escape),
    decreases text.len(),
{
    reveal_with_fuel(like, 2);
    assert(seq!['%'].skip(1) =~= Seq::<char>::empty());
    if text.len() > 0 {
        lemma_percent_matches_all(text.skip(1), escape);
    }
}

/// The filter for system users is the pattern `\_%` with the backslash as its escape
/// character, and it finds exactly the names that begin with an underscore.
pub proof fn law_system_filter_finds_underscore_names(name: Seq<char>)
    ensures
        user_filter(Some(SYSTEM_USER@)) == " AND user_name LIKE '"@ + seq!['\\', '_', '%']
            + "' ESCAPE '"@ + seq!['\\'] + "'"@,
        user_filter(Some("__system"@)) == user_filter(Some(SYSTEM_USER@)),
        user_condition(Some("__system"@)) == " AND user_name LIKE '"@ + seq!['\\', '_', '%'] + "'"@,
        like(name, seq!['\\', '_', '%'], '\\') <==> name.len() > 0 && name[0] == '_',
{
    reveal_strlit(" AND user_name LIKE '\\_%'");
    reveal_strlit(" ESCAPE '\\'");
    reveal_strlit(" AND user_name LIKE '");
    reveal_strlit("' ESCAPE '");
    reveal_strlit("'");
    assert(user_filter(Some(SYSTEM_USER@)) =~= " AND user_name LIKE '"@ + seq!['\\', '_', '%']
        + "' ESCAPE '"@ + seq!['\\'] + "'"@);
    assert(user_condition(Some("__system"@)) =~= " AND user_name LIKE '"@ + seq!['\\', '_', '%']
        + "'"@);
    let pattern = seq!['\\', '_', '%'];
    assert(pattern.skip(2) =~= seq!['%']);
    if name.len() > 0 {
        lemma_percent_matches_all(name.skip(1), '\\');
    }
}

/// Every data query is served under the versioned and under the unversioned prefix.
pub proof fn law_versioned_and_legacy_paths_agree(i: int)
    requires
        0 <= i < api_routes().len(),
    ensures
        routes().contains(("/api/v1"@ + api_routes()[i].0, api_routes()[i].1)),
        routes().contains(("/api"@ + api_routes()[i].0, api_routes()[i].1)),
{
    assert(routes()[4 + i] == ("/api/v1"@ + api_routes()[i].0, api_routes()[i].1));
    assert(routes()[10 + i] == ("/api"@ + api_routes()[i].0, api_routes()[i].1));
}

/// No two routes have the same path.
pub proof fn law_paths_are_distinct(i: int, j: int)
    requires
        0 <= i < j < routes().len(),
    ensures
        routes()[i].0 != routes()[j].0,
{
    reveal_strlit("/");
    reveal_strlit("/health/live");
    reveal_strlit("/health/ready");
    reveal_strlit("/health");
    reveal_strlit("/api/v1");
    reveal_strlit("/api");
    reveal_strlit("/summary");
    reveal_strlit("/top");
    reveal_strlit("/top-mem");
    reveal_strlit("/timeline");
    reveal_strlit("/processes");
    reveal_strlit("/users");
    let a = routes()[i].0;
    let b = routes()[j].0;
    if i < 4 && j < 4 {
        assert(a.len() != b.len() || a[8] != b[8]);
    } else if i < 4 {
        assert(a.len() == 1 || a[1] == 'h');
        assert(b[1] == 'a');
    } else if i < 10 && j >= 10 {
        assert(a[5] == 'v');
        assert(b[5] != 'v');
    } else {
        let n = if i < 10 {
            7int
        } else {
            4int
        };
        let x = api_routes()[(i - 4) % 6].0;
        let y = api_routes()[(j - 4) % 6].0;
        assert(a.skip(n) =~= x);
        assert(b.skip(n) =~= y);
        assert(x.len() != y.len() || x[1] != y[1]);
    }
}

proof fn lemma_all_routes()
    ensures
        routes() == seq![
            ("/"@, Endpoint::Index),
            ("/health/live"@, Endpoint::HealthLive),
            ("/health/ready"@, Endpoint::HealthReady),
            ("/health"@, Endpoint::HealthLive),
            ("/api/v1/summary"@, Endpoint::Summary),
            ("/api/v1/top"@, Endpoint::TopCpu),
            ("/api/v1/top-mem"@, Endpoint::TopMem),
            ("/api/v1/timeline"@, Endpoint::Timeline),
            ("/api/v1/processes"@, Endpoint::Processes),
            ("/api/v1/users"@, Endpoint::Users),
            ("/api/summary"@, Endpoint::Summary),
            ("/api/top"@, Endpoint::TopCpu),
            ("/api/top-mem"@, Endpoint::TopMem),
            ("/api/timeline"@, Endpoint::Timeline),
            ("/api/processes"@, Endpoint::Processes),
            ("/api/users"@, Endpoint::Users),
        ],
{
    reveal_strlit("/api/v1");
    reveal_strlit("/api");
    reveal_strlit("/summary");
    reveal_strlit("/top");
    reveal_strlit("/top-mem");
    reveal_strlit("/timeline");
    reveal_strlit("/processes");
    reveal_strlit("/users");
    reveal_strlit("/");
    reveal_strlit("/health/live");
    reveal_strlit("/health/ready");
    reveal_strlit("/health");
    reveal_strlit("/api/v1/summary");
    reveal_strlit("/api/v1/top");
    reveal_strlit("/api/v1/top-mem");
    reveal_strlit("/api/v1/timeline");
    reveal_strlit("/api/v1/processes");
    reveal_strlit("/api/v1/users");
    reveal_strlit("/api/summary");
    reveal_strlit("/api/top");
    reveal_strlit("/api/top-mem");
    reveal_strlit("/api/timeline");
    reveal_strlit("/api/processes");
    reveal_strlit("/api/users");
    assert("/api/v1"@ + "/summary"@ =~= "/api/v1/summary"@);
    assert("/api"@ + "/summary"@ =~= "/api/summary"@);
    assert("/api/v1"@ + "/top"@ =~= "/api/v1/top"@);
    assert("/api"@ + "/top"@ =~= "/api/top"@);
    assert("/api/v1"@ + "/top-mem"@ =~= "/api/v1/top-mem"@);
    assert("/api"@ + "/top-mem"@ =~= "/api/top-mem"@);
    assert("/api/v1"@ + "/timeline"@ =~= "/api/v1/timeline"@);
    assert("/api"@ + "/timeline"@ =~= "/api/timeline"@);
    assert("/api/v1"@ + "/processes"@ =~= "/api/v1/processes"@);
    assert("/api"@ + "/processes"@ =~= "/api/processes"@);
    assert("/api/v1"@ + "/users"@ =~= "/api/v1/users"@);
    assert("/api"@ + "/users"@ =~= "/api/users"@);
    assert(routes() =~= seq![
        ("/"@, Endpoint::Index),
        ("/health/live"@, Endpoint::HealthLive),
        ("/health/ready"@, Endpoint::HealthReady),
        ("/health"@, Endpoint::HealthLive),
        ("/api/v1/summary"@, Endpoint::Summary),
        ("/api/v1/top"@, Endpoint::TopCpu),
        ("/api/v1/top-mem"@, Endpoint::TopMem),
        ("/api/v1/timeline"@, Endpoint::Timeline),
        ("/api/v1/processes"@, Endpoint::Processes),
        ("/api/v1/users"@, Endpoint::Users),
        ("/api/summary"@, Endpoint::Summary),
        ("/api/top"@, Endpoint::TopCpu),
        ("/api/top-mem"@, Endpoint::TopMem),
        ("/api/timeline"@, Endpoint::Timeline),
        ("/api/processes"@, Endpoint::Processes),
        ("/api/users"@, Endpoint::Users),
    ]);
}

/// Every path leads to what its name says, the data queries under both prefixes, and no other
/// path leads anywhere.
pub proof fn law_paths_lead_to_what_they_name(path: Seq<char>, endpoint: Endpoint)
    ensures
        routes().contains((path, endpoint)) <==> match endpoint {
            Endpoint::Index => path == "/"@,
            Endpoint::HealthLive => path == "/health"@ || path == "/health/live"@,
            Endpoint::HealthReady => path == "/health/ready"@,
            Endpoint::Summary => path == "/api/summary"@ || path == "/api/v1/summary"@,
            Endpoint::TopCpu => path == "/api/top"@ || path == "/api/v1/top"@,
            Endpoint::TopMem => path == "/api/top-mem"@ || path == "/api/v1/top-mem"@,
            Endpoint::Timeline => path == "/api/timeline"@ || path == "/api/v1/timeline"@,
            Endpoint::Processes => path == "/api/processes"@ || path == "/api/v1/processes"@,
            Endpoint::Users => path == "/api/users"@ || path == "/api/v1/users"@,
        },
{
    lemma_all_routes();
    let all = routes();
    assert(all[0] == ("/"@, Endpoint::Index));
    assert(all[1] == ("/health/live"@, Endpoint::HealthLive));
    assert(all[2] == ("/health/ready"@, Endpoint::HealthReady));
    assert(all[3] == ("/health"@, Endpoint::HealthLive));
    assert(all[4] == ("/api/v1/summary"@, Endpoint::Summary));
    assert(all[5] == ("/api/v1/top"@, Endpoint::TopCpu));
    assert(all[6] == ("/api/v1/top-mem"@, Endpoint::TopMem));
    assert(all[7] == ("/api/v1/timeline"@, Endpoint::Timeline));
    assert(all[8] == ("/api/v1/processes"@, Endpoint::Processes));
    assert(all[9] == ("/api/v1/users"@, Endpoint::Users));
    assert(all[10] == ("/api/summary"@, Endpoint::Summary));
    assert(all[11] == ("/api/top"@, Endpoint::TopCpu));
    assert(all[12] == ("/api/top-mem"@, Endpoint::TopMem));
    assert(all[13] == ("/api/timeline"@, Endpoint::Timeline));
    assert(all[14] == ("/api/processes"@, Endpoint::Processes));
    assert(all[15] == ("/api/users"@, Endpoint::Users));
}

/// Under each prefix every data query has one path, and no path of another.
pub proof fn law_every_query_has_one_path_under_each_prefix(endpoint: Endpoint, one: int, other: int)
    requires
        !(endpoint is Index) && !(endpoint is HealthLive) && !(endpoint is HealthReady),
    ensures
        exists|i: int|
            0 <= i < routes().len() && "/api/v1/"@.is_prefix_of((#[trigger] routes()[i]).0)
                && routes()[i].1 == endpoint,
        exists|i: int|
            0 <= i < routes().len() && "/api/"@.is_prefix_of((#[trigger] routes()[i]).0)
                && !"/api/v1/"@.is_prefix_of(routes()[i].0) && routes()[i].1 == endpoint,
        0 <= one < routes().len() && 0 <= other < routes().len() && routes()[one].1 == endpoint
            && routes()[other].1 == endpoint && ("/api/v1/"@.is_prefix_of(routes()[one].0)
            <==> "/api/v1/"@.is_prefix_of(routes()[other].0)) ==> one == other,
{
    lemma_all_routes();
    let all = routes();
    reveal_strlit("/api/v1/");
    reveal_strlit("/api/");
    reveal_strlit("/api/v1/summary");
    reveal_strlit("/api/v1/top");
    reveal_strlit("/api/v1/top-mem");
    reveal_strlit("/api/v1/timeline");
    reveal_strlit("/api/v1/processes");
    reveal_strlit("/api/v1/users");
    reveal_strlit("/api/summary");
    reveal_strlit("/api/top");
    reveal_strlit("/api/top-mem");
    reveal_strlit("/api/timeline");
    reveal_strlit("/api/processes");
    reveal_strlit("/api/users");
    assert("/api/v1/"@.is_prefix_of(all[4].0)) by {
        assert("/api/v1/summary"@.subrange(0, 8) =~= "/api/v1/"@);
    }
    assert("/api/v1/"@.is_prefix_of(all[5].0)) by {
        assert("/api/v1/top"@.subrange(0, 8) =~= "/api/v1/"@);
    }
    assert("/api/v1/"@.is_prefix_of(all[6].0)) by {
        assert("/api/v1/top-mem"@.subrange(0, 8) =~= "/api/v1/"@);
    }
    assert("/api/v1/"@.is_prefix_of(all[7].0)) by {
        assert("/api/v1/timeline"@.subrange(0, 8) =~= "/api/v1/"@);
    }
    assert("/api/v1/"@.is_prefix_of(all[8].0)) by {
        assert("/api/v1/processes"@.subrange(0, 8) =~= "/api/v1/"@);
    }
    assert("/api/v1/"@.is_prefix_of(all[9].0)) by {
        assert("/api/v1/users"@.subrange(0, 8) =~= "/api/v1/"@);
    }
    assert("/api/"@.is_prefix_of(all[10].0)) by {
        assert("/api/summary"@.subrange(0, 5) =~= "/api/"@);
    }
    assert(!"/api/v1/"@.is_prefix_of(all[10].0)) by {
        if "/api/v1/"@.is_prefix_of("/api/summary"@) {
            assert("/api/summary"@.subrange(0, 8)[5] == "/api/v1/"@[5]);
        }
    }
    assert("/api/"@.is_prefix_of(all[11].0)) by {
        assert("/api/top"@.subrange(0, 5) =~= "/api/"@);
    }
    assert(!"/api/v1/"@.is_prefix_of(all[11].0)) by {
        if "/api/v1/"@.is_prefix_of("/api/top"@) {
            assert("/api/top"@.subrange(0, 8)[5] == "/api/v1/"@[5]);
        }
    }
    assert("/api/"@.is_prefix_of(all[12].0)) by {
        assert("/api/top-mem"@.subrange(0, 5) =~= "/api/"@);
    }
    assert(!"/api/v1/"@.is_prefix_of(all[12].0)) by {
        if "/api/v1/"@.is_prefix_of("/api/top-mem"@) {
            assert("/api/top-mem"@.subrange(0, 8)[5] == "/api/v1/"@[5]);
        }
    }
    assert("/api/"@.is_prefix_of(all[13].0)) by {
        assert("/api/timeline"@.subrange(0, 5) =~= "/api/"@);
    }
    assert(!"/api/v1/"@.is_prefix_of(all[13].0)) by {
        if "/api/v1/"@.is_prefix_of("/api/timeline"@) {
            assert("/api/timeline"@.subrange(0, 8)[5] == "/api/v1/"@[5]);
        }
    }
    assert("/api/"@.is_prefix_of(all[14].0)) by {
        assert("/api/processes"@.subrange(0, 5) =~= "/api/"@);
    }
    assert(!"/api/v1/"@.is_prefix_of(all[14].0)) by {
        if "/api/v1/"@.is_prefix_of("/api/processes"@) {
            assert("/api/processes"@.subrange(0, 8)[5] == "/api/v1/"@[5]);
        }
    }
    assert("/api/"@.is_prefix_of(all[15].0)) by {
        assert("/api/users"@.subrange(0, 5) =~= "/api/"@);
    }
    assert(!"/api/v1/"@.is_prefix_of(all[15].0)) by {
        if "/api/v1/"@.is_prefix_of("/api/users"@) {
            assert("/api/users"@.subrange(0, 8)[5] == "/api/v1/"@[5]);
        }
    }
}

/// The condition on an ordinary user compares with a literal that stands for exactly that
/// name, whatever characters it consists of.
pub proof fn law_user_filter_asks_for_that_user(name: Seq<char>) -> (literal: Seq<char>)
    requires
        name.len() > 0,
        name != "__system"@,
    ensures
        user_condition(Some(name)) == " AND user_name = '"@ + literal + "'"@,
        user_filter(Some(name)) == " AND user_name = '"@ + literal + "'"@,
        literal_value(literal) == Some(name),
{
    law_user_name_stays_in_its_literal(name);
    doubled(name)
}

/// Without a user, or with an empty name, a query puts no condition on the user.
pub proof fn law_no_user_is_no_condition()
    ensures
        user_condition(None).len() == 0,
        user_condition(Some(Seq::empty())).len() == 0,
        user_filter(None).len() == 0,
        user_filter(Some(Seq::empty())).len() == 0,
{
    reveal_strlit("__system");
    if Seq::<char>::empty() == SYSTEM_USER@ {
        assert(SYSTEM_USER@.len() == 0);
    }
}

/// A name without an apostrophe stands in its literal as it is, and what two names put
/// together stand as is what each of them stands as.
pub proof fn law_only_apostrophes_are_doubled(one: Seq<char>, other: Seq<char>)
    ensures
        !one.contains('\'') ==> doubled(one) == one,
        doubled(one + other) == doubled(one) + doubled(other),
        doubled(seq!['\'']) == seq!['\'', '\''],
    decreases one.len() + other.len(),
{
    if other.len() > 0 {
        law_only_apostrophes_are_doubled(one, other.drop_last());
        assert((one + other).drop_last() =~= one + other.drop_last());
        assert((one + other).last() == other.last());
        assert(doubled(one + other) =~= doubled(one) + doubled(other));
    } else {
        assert(one + other =~= one);
        assert(doubled(one) + doubled(other) =~= doubled(one));
        if one.len() > 0 {
            law_only_apostrophes_are_doubled(one.drop_last(), other);
            if !one.contains('\'') {
                assert(one.contains(one.last())) by {
                    assert(one[one.len() - 1] == one.last());
                }
                assert forall|c: char| one.drop_last().contains(c) implies one.contains(c) by {
                    let i = choose|i: int|
                        0 <= i < one.drop_last().len() && one.drop_last()[i] == c;
                    assert(one[i] == c);
                }
                assert(doubled(one) =~= one);
            }
        }
    }
    let mark = seq!['\''];
    assert(mark.drop_last() =~= Seq::<char>::empty());
    assert(doubled(mark.drop_last()) =~= Seq::<char>::empty());
    assert(doubled(mark) =~= seq!['\'', '\'']);
}

/// The view reads the Parquet files that lie in the data directory, whatever that is called.
pub proof fn law_view_reads_the_data_directory(data_dir: Seq<char>)
    ensures
        data_dir.len() > 0 && data_dir.last() != '/' ==> view_statement(data_dir)
            == "CREATE VIEW proc_metrics AS SELECT * FROM read_parquet('"@ + data_dir
            + "/*.parquet', union_by_name=true);"@,
        data_dir.len() == 0 || data_dir.last() == '/' ==> view_statement(data_dir)
            == "CREATE VIEW proc_metrics AS SELECT * FROM read_parquet('"@ + data_dir
            + "*.parquet', union_by_name=true);"@,
{
    reveal_strlit("*.parquet");
    reveal_strlit("', union_by_name=true);");
    reveal_strlit("/*.parquet', union_by_name=true);");
    reveal_strlit("*.parquet', union_by_name=true);");
    if data_dir.len() > 0 && data_dir.last() != '/' {
        assert(view_statement(data_dir)
            =~= "CREATE VIEW proc_metrics AS SELECT * FROM read_parquet('"@ + data_dir
            + "/*.parquet', union_by_name=true);"@);
    } else {
        assert(view_statement(data_dir)
            =~= "CREATE VIEW proc_metrics AS SELECT * FROM read_parquet('"@ + data_dir
            + "*.parquet', union_by_name=true);"@);
    }
}

/// The address is the host, a colon and the numeral of the port: the host is what stands
/// before it, and the numeral stands for the port.
pub proof fn law_address_names_host_and_port(bind: Seq<char>, port: u16)
    ensures
        address(bind, port).len() > bind.len() + 1,
        address(bind, port).take(bind.len() as int) == bind,
        address(bind, port)[bind.len() as int] == ':',
        numeral_value(address(bind, port).skip(bind.len() as int + 1)) == port,
        forall|i: int|
            bind.len() < i < address(bind, port).len() ==> is_digit(
                #[trigger] address(bind, port)[i],
            ),
{
    reveal_strlit(":");
    let number = decimal(port as nat);
    lemma_decimal_value(port as nat);
    lemma_decimal_digits(port as nat);
    let text = address(bind, port);
    assert(text.take(bind.len() as int) =~= bind);
    assert(text.skip(bind.len() as int + 1) =~= number);
    assert forall|i: int| bind.len() < i < text.len() implies is_digit(#[trigger] text[i]) by {
        assert(text[i] == number[i - bind.len() - 1]);
    }
}

/// The body of a health reply is an object with the status, as it is, and the version.
pub proof fn law_status_body_shows_the_status(status: Seq<char>)
    ensures
        status_body(status) == "{\"status\":\""@ + status + "\",\"version\":\"0.1.0\"}"@,
{
    reveal_strlit("\",\"version\":\"");
    reveal_strlit("0.1.0");
    reveal_strlit("\"}");
    reveal_strlit("\",\"version\":\"0.1.0\"}");
    assert(status_body(status) =~= "{\"status\":\""@ + status
        + "\",\"version\":\"0.1.0\"}"@);
}

} // verus!
