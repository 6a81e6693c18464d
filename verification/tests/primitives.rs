use yew_router_route_parser::parser::primitives::{capture, valid_ident_characters};
use yew_router_route_parser::token::{Capture, CaptureVariant, RouteParserToken};

#[test]
fn match_any() {
    let cap = capture("{}").expect("Should match").1;
    assert_eq!(
        cap,
        RouteParserToken::Capture(Capture::from(CaptureVariant::Unnamed))
    );
}

#[test]
fn capture_named_test() {
    let cap = capture("{loremipsum}").unwrap();
    assert_eq!(
        cap,
        (
            "",
            RouteParserToken::Capture(Capture::from(CaptureVariant::Named(
                "loremipsum".to_string()
            )))
        )
    );
}

#[test]
fn capture_many_unnamed_test() {
    let cap = capture("{*}").unwrap();
    assert_eq!(
        cap,
        (
            "",
            RouteParserToken::Capture(Capture::from(CaptureVariant::ManyUnnamed))
        )
    );
}

#[test]
fn capture_unnamed_test() {
    let cap = capture("{}").unwrap();
    assert_eq!(
        cap,
        (
            "",
            RouteParserToken::Capture(Capture::from(CaptureVariant::Unnamed))
        )
    );
}

#[test]
fn capture_numbered_unnamed_test() {
    let cap = capture("{5}").unwrap();
    assert_eq!(
        cap,
        (
            "",
            RouteParserToken::Capture(Capture::from(CaptureVariant::NumberedUnnamed {
                sections: 5
            }))
        )
    );
}

#[test]
fn capture_numbered_named_test() {
    let cap = capture("{5:name}").unwrap();
    assert_eq!(
        cap,
        (
            "",
            RouteParserToken::Capture(Capture::from(CaptureVariant::NumberedNamed {
                sections: 5,
                name: "name".to_string()
            }))
        )
    );
}

#[test]
fn capture_many_named() {
    let cap = capture("{*:name}").unwrap();
    assert_eq!(
        cap,
        (
            "",
            RouteParserToken::Capture(Capture::from(CaptureVariant::ManyNamed(
                "name".to_string()
            )))
        )
    );
}

#[test]
fn rejects_invalid_ident() {
    valid_ident_characters("+-lorem").expect_err("Should reject at +");
}

#[test]
fn accepts_valid_ident() {
    valid_ident_characters("Lorem").expect("Should accept");
}

#[test]
fn capture_consumes() {
    capture("{aoeu").expect_err("Should not complete");
}
