use mdserve::request::{route_request, Route};

#[test]
fn root_routes_home() {
    assert!(matches!(route_request("GET / HTTP/1.1"), Route::Home));
}

#[test]
fn list_routes_listing() {
    assert!(matches!(route_request("GET /list HTTP/1.1"), Route::Listing));
}

#[test]
fn markdown_path_routes_document() {
    match route_request("GET /readme.md HTTP/1.1") {
        Route::Document { name } => assert_eq!(name, "readme.md"),
        _ => panic!("expected a document route"),
    }
}

#[test]
fn extra_leading_slashes_are_dropped() {
    match route_request("GET //notes.md HTTP/1.1") {
        Route::Document { name } => assert_eq!(name, "notes.md"),
        _ => panic!("expected a document route"),
    }
}

#[test]
fn non_markdown_path_is_not_found() {
    assert!(matches!(route_request("GET /nope.txt HTTP/1.1"), Route::NotFound));
}

#[test]
fn other_method_is_not_found() {
    assert!(matches!(route_request("POST / HTTP/1.1"), Route::NotFound));
}

#[test]
fn garbage_line_is_not_found() {
    assert!(matches!(route_request(""), Route::NotFound));
    assert!(matches!(route_request("GET"), Route::NotFound));
}

#[test]
fn bare_slash_path_routes_home() {
    assert!(matches!(route_request("GET //// HTTP/1.1"), Route::Home));
}
