use yew_router_route_parser::captures::Captures;
use yew_router_route_parser::matcher::match_route;
use yew_router_route_parser::token_optimizer::parse_str_and_optimize_tokens;

fn run(pattern: &str, slash: bool, input: &str) -> Option<Vec<(String, String)>> {
    let tokens = parse_str_and_optimize_tokens(pattern, slash).expect("pattern should compile");
    match_route(&tokens, input).map(Captures::into_entries)
}

fn pairs(entries: &[(&str, &str)]) -> Option<Vec<(String, String)>> {
    Some(
        entries
            .iter()
            .map(|(k, v)| (k.to_string(), v.to_string()))
            .collect(),
    )
}

#[test]
fn literal_pattern_matches_itself_without_captures() {
    assert_eq!(run("/a/b/c", false, "/a/b/c"), pairs(&[]));
    assert_eq!(run("/a/b/c", false, "/a/b"), None);
    assert_eq!(run("/a/b/c", false, "/a/b/c/d"), None);
    assert_eq!(run("", false, ""), pairs(&[]));
}

#[test]
fn pattern_without_captures_matches_its_text_with_every_group_present() {
    let pattern = "/a(/b(/c))?x=y(&z=w)#(f)";
    let text = "/a/b/c?x=y&z=w#f";
    assert_eq!(run(pattern, false, text), pairs(&[]));
    assert_eq!(run(pattern, true, text), pairs(&[]));
    assert_eq!(run(pattern, true, "/a/b/c?x=y&z=w#f/"), pairs(&[]));
    assert_eq!(run(pattern, false, "/a/b/c?x=y&z=w#f/"), None);
    assert_eq!(run(pattern, false, "/a?x=y#"), pairs(&[]));
    assert_eq!(run(pattern, false, "/a?x=y"), None);
}

#[test]
fn numbered_capture_takes_exactly_its_sections() {
    assert_eq!(
        run("/{5:name}/rest", false, "/1/2/3/4/5/rest"),
        pairs(&[("name", "1/2/3/4/5")])
    );
    assert_eq!(run("/{5:name}/rest", false, "/1/2/3/4/rest"), None);
    assert_eq!(run("/{5:name}", false, "/1/2/3/4"), None);
    assert_eq!(run("/{2}", false, "/a/b"), pairs(&[("0", "a/b")]));
}

#[test]
fn optional_group_may_be_absent() {
    assert_eq!(run("/a(/b)", false, "/a"), pairs(&[]));
    assert_eq!(run("/a(/b)", false, "/a/b"), pairs(&[]));
    assert_eq!(run("/a(/b)", false, "/a/c"), None);
}

#[test]
fn allowed_values_restrict_a_capture() {
    assert_eq!(run("/{x(yes|no)}", false, "/yes"), pairs(&[("x", "yes")]));
    assert_eq!(run("/{x(yes|no)}", false, "/no"), pairs(&[("x", "no")]));
    assert_eq!(run("/{x(yes|no)}", false, "/maybe"), None);
    assert_eq!(run("/{x(yes|no)}", false, "/Yes"), None);
    assert_eq!(run("/{x(yes|no)}", false, "/"), None);
}

#[test]
fn optional_query_terms_chain() {
    let pattern = "?query=this(&another=query)";
    assert_eq!(run(pattern, false, "?query=this"), pairs(&[]));
    assert_eq!(run(pattern, false, "?query=this&another=query"), pairs(&[]));
    assert_eq!(run(pattern, false, "?query=this&other=thing"), None);
}

#[test]
fn trailing_slash_is_optional_when_asked_for() {
    assert_eq!(run("/user", true, "/user"), pairs(&[]));
    assert_eq!(run("/user", true, "/user/"), pairs(&[]));
    assert_eq!(run("/user", false, "/user"), pairs(&[]));
    assert_eq!(run("/user", false, "/user/"), None);
}

#[test]
fn captures_recover_substituted_values() {
    assert_eq!(
        run("/user/{id}?sort={field}", false, "/user/42?sort=name"),
        pairs(&[("id", "42"), ("field", "name")])
    );
    assert_eq!(
        run("/{}/{name}/{}", false, "/a/b/c"),
        pairs(&[("0", "a"), ("name", "b"), ("2", "c")])
    );
    assert_eq!(
        run("/user/{id}(/extra)", false, "/user/42/extra"),
        pairs(&[("id", "42")])
    );
    assert_eq!(
        run("/user/{id}(/extra)", false, "/user/42"),
        pairs(&[("id", "42")])
    );
    assert_eq!(run("/user/{id}/x", false, "/user//x"), pairs(&[("id", "")]));
    assert_eq!(
        run("/files/{*:path}#end", false, "/files/a/b/c#end"),
        pairs(&[("path", "a/b/c")])
    );
    assert_eq!(
        run("/user/{id}/x", true, "/user/42/x"),
        pairs(&[("id", "42")])
    );
    assert_eq!(
        run("/user/{id}/x", true, "/user/42/x/"),
        pairs(&[("id", "42")])
    );
}

#[test]
fn groups_can_break_the_round_trip() {
    assert_eq!(run("/{x}(/b)/b", false, "/v/b"), None);
    assert_eq!(run("/{x}(/b)/b", false, "/v/b/b"), pairs(&[("x", "v")]));
}
