use procmon::web::api_processes;
use procmon::web::api_summary;
use procmon::web::api_timeline;
use procmon::web::api_top_cpu;
use procmon::web::api_top_mem;
use procmon::web::api_users;
use procmon::web::default_limit;
use procmon::web::default_timeline_window;
use procmon::web::default_window;
use procmon::web::health_live;
use procmon::web::health_ready;
use procmon::web::invalid_bind_address;
use procmon::web::listen_address;
use procmon::web::open_db;
use procmon::web::router;
use procmon::web::user_clause;
use procmon::web::AppError;
use procmon::web::Endpoint;
use procmon::web::TimelineParams;
use procmon::web::TopParams;
use procmon::web::WindowParams;

fn json(text: &str) -> serde_json::Value {
    serde_json::from_str(text).unwrap()
}

#[test]
fn requests_have_their_defaults() {
    assert_eq!(default_window(), 300);
    assert_eq!(default_limit(), 10);
    assert_eq!(default_timeline_window(), 3600);
    assert_eq!(WindowParams::new(None, None).window, 300);
    assert_eq!(WindowParams::new(Some(60), None).window, 60);
    let top = TopParams::new(None, None, Some("u".to_string()));
    assert_eq!((top.window, top.limit), (300, 10));
    assert_eq!(top.user, Some("u".to_string()));
    let top = TopParams::new(Some(1), Some(2), None);
    assert_eq!((top.window, top.limit), (1, 2));
    let line = TimelineParams::new(100, None);
    assert_eq!((line.pid, line.window), (100, 3600));
    assert_eq!(TimelineParams::new(100, Some(5)).window, 5);
}

#[test]
fn the_user_clause_selects_users() {
    assert_eq!(user_clause(None), "");
    assert_eq!(user_clause(Some("")), "");
    assert_eq!(user_clause(Some("__system")), r" AND user_name LIKE '\_%'");
    assert_eq!(user_clause(Some("sebastien")), " AND user_name = 'sebastien'");
    assert_eq!(user_clause(Some("o'brien")), " AND user_name = 'o''brien'");
    assert_eq!(user_clause(Some("' OR '1'='1")), " AND user_name = ''' OR ''1''=''1'");
}

#[test]
fn the_view_reads_all_data_files() {
    assert_eq!(
        open_db("/data"),
        "CREATE VIEW proc_metrics AS SELECT * FROM read_parquet('/data/*.parquet', union_by_name=true);"
    );
}

#[test]
fn the_summary_query_is_complete() {
    let sql = api_summary("1.5", &WindowParams::new(None, Some("u".to_string())));
    assert_eq!(
        sql,
        "SELECT
            count(DISTINCT pid) as active_procs,
            coalesce(sum(cpu_percent), 0.0) as total_cpu,
            coalesce(sum(mem_rss), 0) as total_rss
         FROM (
             SELECT pid, avg(cpu_percent) as cpu_percent, max(mem_rss) as mem_rss
             FROM proc_metrics
             WHERE ts > 1.5 AND user_name = 'u'
             GROUP BY pid
         )"
    );
}

#[test]
fn the_ranking_queries_are_complete() {
    let params = TopParams::new(None, Some(-3), None);
    assert_eq!(
        api_top_cpu("1.5", &params),
        "SELECT name, user_name,
                round(avg(cpu_percent), 2) as avg_cpu,
                max(mem_rss) as peak_rss,
                count(DISTINCT pid) as instances
         FROM proc_metrics
         WHERE ts > 1.5
         GROUP BY name, user_name
         ORDER BY avg_cpu DESC
         LIMIT -3"
    );
    assert_eq!(
        api_top_mem("1.5", &TopParams::new(None, None, Some("u".to_string()))),
        "SELECT name, user_name,
                round(avg(cpu_percent), 2) as avg_cpu,
                max(mem_rss) as peak_rss,
                count(DISTINCT pid) as instances
         FROM proc_metrics
         WHERE ts > 1.5 AND user_name = 'u'
         GROUP BY name, user_name
         ORDER BY peak_rss DESC
         LIMIT 10"
    );
}

#[test]
fn the_other_queries_are_complete() {
    assert_eq!(
        api_timeline("1.5", &TimelineParams::new(100, None)),
        "SELECT ts, round(cpu_percent, 2) as cpu_percent, mem_rss
         FROM proc_metrics
         WHERE pid = 100 AND ts > 1.5
         ORDER BY ts"
    );
    assert_eq!(
        api_users("1.5"),
        "SELECT DISTINCT coalesce(user_name, '') as user_name
         FROM proc_metrics
         WHERE ts > 1.5
         ORDER BY user_name"
    );
    assert_eq!(
        api_processes("1.5", &WindowParams::new(None, Some("__system".to_string()))),
        r"SELECT DISTINCT pid, name, user_name, max(ts) as last_seen
         FROM proc_metrics
         WHERE ts > 1.5 AND user_name LIKE '\_%' ESCAPE '\'
         GROUP BY pid, name, user_name
         ORDER BY name"
    );
}

#[test]
fn health_live_returns_version() {
    let reply = health_live();
    assert_eq!(reply.status, 200);
    let body = json(&reply.body);
    assert_eq!(body["status"], "ok");
    assert_eq!(body["version"], procmon::VERSION);
}

#[test]
fn health_ready_says_whether_the_data_can_be_read() {
    let reply = health_ready(true);
    assert_eq!(reply.status, 200);
    assert_eq!(json(&reply.body)["status"], "ready");
    assert_eq!(json(&reply.body)["version"], procmon::VERSION);
    let reply = health_ready(false);
    assert_eq!(reply.status, 503);
    assert_eq!(reply.body, "{\"status\":\"unavailable\",\"version\":\"0.1.0\"}");
}

#[test]
fn versioned_and_legacy_api_paths_both_work() {
    let routes = router();
    for path in ["/api/summary", "/api/v1/summary"] {
        assert!(routes.contains(&(path.to_string(), Endpoint::Summary)), "path {path}");
    }
}

#[test]
fn all_routes_are_there() {
    let routes = router();
    let paths: Vec<&str> = routes.iter().map(|r| r.0.as_str()).collect();
    assert_eq!(
        paths,
        vec![
            "/",
            "/health/live",
            "/health/ready",
            "/health",
            "/api/v1/summary",
            "/api/v1/top",
            "/api/v1/top-mem",
            "/api/v1/timeline",
            "/api/v1/processes",
            "/api/v1/users",
            "/api/summary",
            "/api/top",
            "/api/top-mem",
            "/api/timeline",
            "/api/processes",
            "/api/users",
        ]
    );
    assert_eq!(routes[3].1, Endpoint::HealthLive);
    assert_eq!(routes[12].1, Endpoint::TopMem);
}

#[test]
fn empty_data_dir_yields_errors() {
    assert_eq!(health_live().status, 200);
    assert_eq!(health_ready(false).status, 503);
    let error = AppError { detail: "IO Error: No files found that match the pattern".to_string() };
    let reply = error.into_response();
    assert_eq!(reply.status, 500);
    assert_eq!(json(&reply.body)["error"], "internal server error");
    assert!(!reply.body.contains("pattern"));
}

#[test]
fn addresses_are_bind_and_port() {
    assert_eq!(listen_address("127.0.0.1", 9090), "127.0.0.1:9090");
    assert_eq!(
        invalid_bind_address("nowhere", 80, "invalid socket address syntax"),
        "invalid bind address nowhere:80: invalid socket address syntax"
    );
}
