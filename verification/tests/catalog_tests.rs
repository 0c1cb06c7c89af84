use panel_cli::catalog::{
    describe_key, find_route, list_rows, merged_routes, swagger_path, Route, SwaggerOp,
};
use panel_cli::commands::parse_kv;
use panel_cli::web::{extract_task_id, new_extract_task_id};

fn route(method: &str, path: &str, handler: &str, summary: &str, tags: &[&str]) -> Route {
    Route {
        method: method.to_string(),
        path: path.to_string(),
        handler: handler.to_string(),
        source: "core/router".to_string(),
        summary: summary.to_string(),
        tags: tags.iter().map(|t| t.to_string()).collect(),
        swagger_documented: false,
    }
}

fn small_catalog() -> Vec<Route> {
    vec![
        route("POST", "/api/v2/websites/search", "SearchWebsites", "", &[]),
        route("GET", "/api/v2/core/auth/current", "GetCurrent", "Current user", &["Auth"]),
        route("POST", "/api/v2/apps/search", "SearchApps", "Search apps", &["App"]),
    ]
}

#[test]
fn merges_runtime_only_swagger_routes() {
    let catalog = small_catalog();
    let ops = vec![SwaggerOp {
        method: "post".to_string(),
        path: "/future/feature".to_string(),
        summary: "Future feature".to_string(),
        tags: vec!["Future".to_string()],
    }];
    let routes = merged_routes(&catalog, Some(&ops));
    assert_eq!(routes.len(), catalog.len() + 1);
    let added = routes
        .iter()
        .find(|r| r.path == "/api/v2/future/feature")
        .expect("runtime route added");
    assert_eq!(added.method, "POST");
    assert_eq!(added.source, "runtime-swagger");
    assert_eq!(added.handler, "");
    assert_eq!(added.summary, "Future feature");
    assert_eq!(added.tags, vec!["Future".to_string()]);
    assert!(added.swagger_documented);
}

#[test]
fn merged_routes_are_sorted_by_method_then_path() {
    let routes = merged_routes(&small_catalog(), None);
    let keys: Vec<(String, String)> =
        routes.iter().map(|r| (r.method.clone(), r.path.clone())).collect();
    assert_eq!(
        keys,
        vec![
            ("GET".to_string(), "/api/v2/core/auth/current".to_string()),
            ("POST".to_string(), "/api/v2/apps/search".to_string()),
            ("POST".to_string(), "/api/v2/websites/search".to_string()),
        ]
    );
    assert!(routes.iter().all(|r| !r.swagger_documented));
}

#[test]
fn swagger_fills_only_missing_summary_and_tags() {
    let ops = vec![
        SwaggerOp {
            method: "post".to_string(),
            path: "/websites/search".to_string(),
            summary: "Page websites".to_string(),
            tags: vec!["Website".to_string()],
        },
        SwaggerOp {
            method: "post".to_string(),
            path: "/apps/search".to_string(),
            summary: "Other summary".to_string(),
            tags: vec!["Other".to_string()],
        },
    ];
    let routes = merged_routes(&small_catalog(), Some(&ops));
    assert_eq!(routes.len(), 3);
    let web = routes.iter().find(|r| r.handler == "SearchWebsites").unwrap();
    assert_eq!(web.summary, "Page websites");
    assert_eq!(web.tags, vec!["Website".to_string()]);
    assert!(web.swagger_documented);
    let apps = routes.iter().find(|r| r.handler == "SearchApps").unwrap();
    assert_eq!(apps.summary, "Search apps");
    assert_eq!(apps.tags, vec!["App".to_string()]);
    assert!(apps.swagger_documented);
    let current = routes.iter().find(|r| r.handler == "GetCurrent").unwrap();
    assert!(!current.swagger_documented);
}

#[test]
fn later_catalog_entry_replaces_earlier_one_with_same_key() {
    let catalog = vec![
        route("GET", "/api/v2/x", "First", "", &[]),
        route("GET", "/api/v2/x", "Second", "", &[]),
    ];
    let routes = merged_routes(&catalog, None);
    assert_eq!(routes.len(), 1);
    assert_eq!(routes[0].handler, "Second");
}

#[test]
fn list_rows_filters_case_insensitively_and_falls_back_to_handler() {
    let routes = merged_routes(&small_catalog(), None);
    let all = list_rows(&routes, "");
    assert_eq!(all.len(), 3);
    let web = list_rows(&routes, "WEBSITES");
    assert_eq!(
        web,
        vec![vec![
            "POST".to_string(),
            "/api/v2/websites/search".to_string(),
            "SearchWebsites".to_string()
        ]]
    );
    let by_tag = list_rows(&routes, "auth");
    assert_eq!(by_tag.len(), 1);
    assert_eq!(by_tag[0][2], "Current user");
    assert!(list_rows(&routes, "nothing-matches").is_empty());
}

#[test]
fn describe_key_uppercases_and_normalizes() {
    assert_eq!(
        describe_key("post", "websites/templates/search"),
        ("POST".to_string(), "/api/v2/websites/templates/search".to_string())
    );
    let routes = small_catalog();
    assert_eq!(find_route(&routes, "POST", "/api/v2/apps/search"), Some(2));
    assert_eq!(find_route(&routes, "GET", "/api/v2/apps/search"), None);
    assert_eq!(swagger_path("/api/v2/apps/search"), "/apps/search");
    assert_eq!(swagger_path("/other"), "/other");
}

#[test]
fn parses_key_value_arguments() {
    assert_eq!(
        parse_kv(" PANEL_APP_PORT_HTTP = 8080 "),
        Some(("PANEL_APP_PORT_HTTP".to_string(), "8080".to_string()))
    );
    assert_eq!(parse_kv("a=b=c"), Some(("a".to_string(), "b=c".to_string())));
    assert_eq!(parse_kv("novalue"), None);
}

#[test]
fn extract_task_id_formats_like_the_panel_expects() {
    assert_eq!(
        extract_task_id(0xdeadbeef, 0x1a, 0x0123, 0xf005, 0xabc),
        "deadbeef-1a-4291-8005-000000000abc"
    );
    assert_eq!(extract_task_id(0, 0, 0, 0, 0), "0-0-4000-8000-000000000000");
    assert_eq!(
        extract_task_id(1, 2, 0xfff, 4095, u64::MAX),
        "1-2-44095-84095-ffffffffffffffff"
    );
    let id = new_extract_task_id();
    assert_eq!(id.split('-').count(), 5);
}
