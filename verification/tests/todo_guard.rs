//! The guard over request handlers, on whole source files.

use cuprate_core::todo_guard::guard::{
    allowlist, checked_todo_violations, dispatched_todo_violations, expected, is_as_allowed,
    is_err_arm, is_not_available_arm, violations, HandlerFile, ParsedHandlerFile,
};
use cuprate_core::todo_guard::handler_set::HandlerSet;
use cuprate_core::todo_guard::syntax::{
    ArmSyntax, BodySyntax, FnSyntax, ItemSyntax, MacroSyntax, MatchSyntax, ReturnedSyntax,
    StatementSyntax, TokenSyntax,
};
use cuprate_core::todo_guard::table::{
    calls_in, is_todo_macro, path_call, resolve_call, FnInfo, FnTable,
};

#[test]
fn all_not_available_arms_are_ignored() {
    let files = [HandlerFile {
        tag: "t",
        src: r"
use anyhow::Error;

pub async fn map_request(state: State, request: Req) -> Result<Resp, Error> {
    Ok(match request {
        Req::Alpha(r) => Resp::Alpha(not_available()?),
        Req::Beta(r) => Resp::Beta(not_available()?),
    })
}

async fn alpha(state: State, request: AlphaReq) -> Result<AlphaResp, Error> {
    todo!()
}

async fn beta(state: State, request: BetaReq) -> Result<BetaResp, Error> {
    todo!()
}
",
    }];

    assert_eq!(dispatched_todo_violations(&files), expected(&[]));
}

#[test]
fn direct_dispatched_handler_with_todo_is_reported() {
    let files = [HandlerFile {
        tag: "t",
        src: r"
use anyhow::Error;

pub async fn map_request(state: State, request: Req) -> Result<Resp, Error> {
    Ok(match request {
        Req::Alpha(r) => Resp::Alpha(handler(state, r).await?),
    })
}

async fn handler(state: State, request: AlphaReq) -> Result<AlphaResp, Error> {
    todo!()
}
",
    }];

    assert_eq!(
        dispatched_todo_violations(&files),
        expected(&[("t", "handler")])
    );
}

#[test]
fn transitive_shared_call_with_todo_is_reported_on_dispatch_target() {
    let files = [
        HandlerFile {
            tag: "t",
            src: r"
use anyhow::Error;

pub async fn map_request(state: State, request: Req) -> Result<Resp, Error> {
    Ok(match request {
        Req::Alpha(r) => Resp::Alpha(wrapper(state, r).await?),
    })
}

async fn wrapper(state: State, request: AlphaReq) -> Result<AlphaResp, Error> {
    shared::inner(state, request).await
}
",
        },
        HandlerFile {
            tag: "shared",
            src: r"
use anyhow::Error;

pub async fn inner(state: State, request: AlphaReq) -> Result<AlphaResp, Error> {
    todo!()
}
",
        },
    ];

    assert_eq!(
        dispatched_todo_violations(&files),
        expected(&[("t", "wrapper")])
    );
}

#[test]
fn direct_shared_dispatch_with_todo_is_reported() {
    let files = [
        HandlerFile {
            tag: "t",
            src: r"
use anyhow::Error;

pub async fn map_request(state: State, request: Req) -> Result<Resp, Error> {
    Ok(match request {
        Req::Alpha(r) => Resp::Alpha(shared::inner(state, r).await?),
    })
}
",
        },
        HandlerFile {
            tag: "shared",
            src: r"
use anyhow::Error;

pub async fn inner(state: State, request: AlphaReq) -> Result<AlphaResp, Error> {
    todo!()
}
",
        },
    ];

    assert_eq!(
        dispatched_todo_violations(&files),
        expected(&[("t", "inner")])
    );
}

#[test]
fn transitive_helper_call_with_todo_is_reported() {
    let files = [
        HandlerFile {
            tag: "t",
            src: r"
use anyhow::Error;

pub async fn map_request(state: State, request: Req) -> Result<Resp, Error> {
    Ok(match request {
        Req::Alpha(r) => Resp::Alpha(wrapper(state, r).await?),
    })
}

async fn wrapper(state: State, request: AlphaReq) -> Result<AlphaResp, Error> {
    helper::compute(state, request)
}
",
        },
        HandlerFile {
            tag: "helper",
            src: r"
use anyhow::Error;

pub fn compute(state: State, request: AlphaReq) -> Result<AlphaResp, Error> {
    todo!()
}
",
        },
    ];

    assert_eq!(
        dispatched_todo_violations(&files),
        expected(&[("t", "wrapper")])
    );
}

#[test]
fn prelude_match_before_request_dispatch_does_not_hide_handler() {
    let files = [HandlerFile {
        tag: "t",
        src: r"
use anyhow::Error;

pub async fn map_request(state: State, request: Req) -> Result<Resp, Error> {
    let _ignored = match 0 {
        0 => 1,
        _ => 2,
    };

    Ok(match request {
        Req::Alpha(r) => Resp::Alpha(handler(state, r).await?),
    })
}

async fn handler(state: State, request: AlphaReq) -> Result<AlphaResp, Error> {
    todo!()
}
",
    }];

    assert_eq!(
        dispatched_todo_violations(&files),
        expected(&[("t", "handler")])
    );
}

#[test]
fn todo_only_reachable_from_not_available_arm_is_ignored() {
    let files = [HandlerFile {
        tag: "t",
        src: r"
use anyhow::Error;

pub async fn map_request(state: State, request: Req) -> Result<Resp, Error> {
    Ok(match request {
        Req::Alpha(r) => Resp::Alpha(not_available()?),
    })
}

async fn hidden_todo(state: State, request: AlphaReq) -> Result<AlphaResp, Error> {
    todo!()
}
",
    }];

    assert_eq!(dispatched_todo_violations(&files), expected(&[]));
}

#[test]
fn unsupported_return_err_arms_are_ignored_without_panicking() {
    let files = [HandlerFile {
        tag: "t",
        src: r#"
use anyhow::{anyhow, Error};

pub async fn map_request(state: State, request: Req) -> Result<Resp, Error> {
    Ok(match request {
        Req::Alpha(_) | Req::Beta(_) => return Err(anyhow!("x")),
    })
}

async fn alpha(state: State, request: AlphaReq) -> Result<AlphaResp, Error> {
    todo!()
}
"#,
    }];

    assert_eq!(dispatched_todo_violations(&files), expected(&[]));
}

#[test]
fn unimplemented_is_reported_the_same_as_todo() {
    let files = [HandlerFile {
        tag: "t",
        src: r"
use anyhow::Error;

pub async fn map_request(state: State, request: Req) -> Result<Resp, Error> {
    Ok(match request {
        Req::Alpha(r) => Resp::Alpha(handler(state, r).await?),
    })
}

async fn handler(state: State, request: AlphaReq) -> Result<AlphaResp, Error> {
    unimplemented!()
}
",
    }];

    assert_eq!(
        dispatched_todo_violations(&files),
        expected(&[("t", "handler")])
    );
}

#[test]
fn shared_name_collision_only_flags_the_resolved_shared_call_path() {
    let files = [
        HandlerFile {
            tag: "t",
            src: r"
use anyhow::Error;

pub async fn map_request(state: State, request: Req) -> Result<Resp, Error> {
    Ok(match request {
        Req::Clean(r) => Resp::Clean(foo(state, r).await?),
        Req::Shared(r) => Resp::Shared(call_shared(state, r).await?),
    })
}

async fn foo(state: State, request: CleanReq) -> Result<CleanResp, Error> {
    Ok(CleanResp)
}

async fn call_shared(state: State, request: SharedReq) -> Result<SharedResp, Error> {
    shared::foo(state, request).await
}
",
        },
        HandlerFile {
            tag: "shared",
            src: r"
use anyhow::Error;

pub async fn foo(state: State, request: SharedReq) -> Result<SharedResp, Error> {
    todo!()
}
",
        },
    ];

    assert_eq!(
        dispatched_todo_violations(&files),
        expected(&[("t", "call_shared")])
    );
}

#[test]
fn dispatched_handlers_have_no_reachable_todo() {
    let files = [
        HandlerFile {
            tag: "json_rpc",
            src: r"
use super::{helper, shared};

pub async fn map_request(state: State, request: Req) -> Result<Resp, Error> {
    Ok(match request {
        Req::GetBlockCount(r) => Resp::GetBlockCount(get_block_count(state, r).await?),
        Req::GetOutputDistribution(r) => {
            Resp::GetOutputDistribution(get_output_distribution(state, r).await?)
        }
        Req::SetBans(r) => Resp::SetBans(not_available()?),
    })
}

async fn get_block_count(state: State, request: CountReq) -> Result<CountResp, Error> {
    helper::top_height(&mut state).await
}

async fn get_output_distribution(state: State, request: DistReq) -> Result<DistResp, Error> {
    shared::get_output_distribution(state, request).await
}

async fn set_bans(state: State, request: BansReq) -> Result<BansResp, Error> {
    todo!()
}
",
        },
        HandlerFile {
            tag: "other_json",
            src: r"
pub async fn map_request(state: State, request: Req) -> Result<Resp, Error> {
    Ok(match request {
        Req::GetHeight(r) => Resp::GetHeight(get_height(state, r).await?),
        Req::StopMining(r) => Resp::StopMining(not_available()?),
    })
}

async fn get_height(state: State, request: HeightReq) -> Result<HeightResp, Error> {
    helper::top_height(&mut state).await
}
",
        },
        HandlerFile {
            tag: "bin",
            src: r"
pub async fn map_request(state: State, request: Req) -> Result<Resp, Error> {
    Ok(match request {
        Req::GetOuts(r) => Resp::GetOuts(shared::get_outs(state, r).await?),
    })
}
",
        },
        HandlerFile {
            tag: "shared",
            src: r"
pub async fn get_outs(state: State, request: OutsReq) -> Result<OutsResp, Error> {
    Ok(OutsResp)
}

pub async fn get_output_distribution(state: State, request: DistReq) -> Result<DistResp, Error> {
    todo!()
}

pub fn not_available<T>() -> Result<T, Error> {
    unimplemented!()
}
",
        },
        HandlerFile {
            tag: "helper",
            src: r"
pub async fn top_height(state: &mut State) -> Result<u64, Error> {
    Ok(0)
}
",
        },
    ];
    let expected = allowlist();
    let actual = dispatched_todo_violations(&files);

    assert_eq!(
        actual,
        expected,
        "unexpected dispatched todo!/unimplemented! set: {actual:?}; offending (file, handler) pairs must be routed to not_available() or removed from the stale allowlist entry"
    );
    assert!(is_as_allowed(&actual));
}

#[test]
fn fixed_handler_makes_the_allowlist_stale() {
    let files = [HandlerFile {
        tag: "json_rpc",
        src: r"
pub async fn map_request(state: State, request: Req) -> Result<Resp, Error> {
    Ok(match request {
        Req::A(r) => Resp::A(get_output_distribution(state, r).await?),
    })
}

async fn get_output_distribution(state: State, request: DistReq) -> Result<DistResp, Error> {
    Ok(DistResp)
}
",
    }];

    assert!(!is_as_allowed(&dispatched_todo_violations(&files)));
}

#[test]
fn file_that_does_not_parse_is_named() {
    let files = [
        HandlerFile { tag: "good", src: "fn map_request() {}" },
        HandlerFile { tag: "bad", src: "fn map_request( {" },
    ];

    let failure = checked_todo_violations(&files).expect_err("must not parse");
    assert_eq!(failure.tag, "bad");
    assert!(!failure.message.is_empty());
    assert!(!failure.message.contains("map_request( {"));
}

#[test]
fn files_that_parse_are_checked() {
    let files = [HandlerFile {
        tag: "t",
        src: "fn map_request(request: Req) { match request { Req::A => a() } } fn a() { x::y::todo!() }",
    }];

    assert_eq!(checked_todo_violations(&files).expect("parses"), expected(&[("t", "a")]));
    assert_eq!(checked_todo_violations(&[]).expect("parses"), expected(&[]));
}

#[test]
fn recursion_without_todo_ends_and_is_clean() {
    let files = [HandlerFile {
        tag: "t",
        src: "fn map_request(request: Req) { match request { Req::A => a() } } fn a() { b() } fn b() { a() }",
    }];

    assert_eq!(dispatched_todo_violations(&files), expected(&[]));
}

#[test]
fn long_chain_and_cycle_reach_the_todo() {
    let files = [HandlerFile {
        tag: "t",
        src: "fn d() { unimplemented!() } fn c() { a(); d() } fn b() { c() } fn a() { b() } \
              fn map_request(request: Req) { match request { Req::A => a() } }",
    }];

    assert_eq!(dispatched_todo_violations(&files), expected(&[("t", "a")]));
}

#[test]
fn only_the_first_mapper_of_a_file_counts() {
    let files = [HandlerFile {
        tag: "t",
        src: "fn map_request(request: Req) { match request { Req::A => ok() } } fn ok() {} \
              fn bad() { todo!() } fn map_request(request: Req) { match request { Req::A => bad() } }",
    }];

    assert_eq!(dispatched_todo_violations(&files), expected(&[]));
}

#[test]
fn first_match_dispatches_where_none_is_on_request() {
    let files = [HandlerFile {
        tag: "t",
        src: "fn map_request(r: Req) { match r.inner { A => bad() } match r { B => worse() } } \
              fn bad() { todo!() } fn worse() { todo!() }",
    }];

    assert_eq!(dispatched_todo_violations(&files), expected(&[("t", "bad")]));
}

#[test]
fn expected_sets_are_ordered_and_without_duplicates() {
    let set = expected(&[("b", "x"), ("a", "z"), ("b", "x"), ("a", "y")]);
    let entries: Vec<(&str, &str)> =
        set.entries.iter().map(|(tag, name)| (tag.as_str(), name.as_str())).collect();

    assert_eq!(entries, vec![("a", "y"), ("a", "z"), ("b", "x")]);
    assert!(set.same_as(&expected(&[("a", "y"), ("b", "x"), ("a", "z")])));
    assert!(!set.same_as(&HandlerSet::new()));
}

fn path(segments: &[&str]) -> Option<Vec<String>> {
    Some(segments.iter().map(|segment| String::from(*segment)).collect())
}

#[test]
fn calls_are_named_by_their_last_two_segments() {
    assert_eq!(path_call(&None), None);
    assert_eq!(path_call(&path(&[])), None);
    assert_eq!(path_call(&path(&["f"])), Some((None, String::from("f"))));
    assert_eq!(
        path_call(&path(&["crate", "shared", "f"])),
        Some((Some(String::from("shared")), String::from("f")))
    );
}

fn mac(segments: &[&str], tokens: Vec<TokenSyntax>) -> MacroSyntax {
    MacroSyntax { path: path(segments).expect("a path"), tokens }
}

fn word(text: &str) -> TokenSyntax {
    TokenSyntax::Word(String::from(text))
}

#[test]
fn todo_macros_are_told_by_their_last_segment() {
    for (segments, todo) in [
        (vec!["todo"], true),
        (vec!["std", "unimplemented"], true),
        (vec!["todo", "other"], false),
        (vec!["println"], false),
        (vec![], false),
    ] {
        assert_eq!(is_todo_macro(&mac(&segments, vec![])), todo);
    }
}

#[test]
fn todo_macros_are_found_in_what_a_macro_is_given() {
    let open = || TokenSyntax::Open(Some('('));
    let close = || TokenSyntax::Close;
    for (tokens, todo) in [
        (vec![word("todo"), word("!"), open(), close()], true),
        (vec![word("a"), word(","), word("unimplemented"), word("!"), open(), close()], true),
        (vec![word("todo"), word("!"), word("="), word("a")], false),
        (vec![word("todo"), open(), close()], false),
        (vec![word("todo"), word("!")], false),
        (vec![word("\"todo\""), word("!"), open(), close()], false),
    ] {
        assert_eq!(is_todo_macro(&mac(&["vec"], tokens)), todo);
    }
}

#[test]
fn todo_inside_macro_arguments_is_reported() {
    for (body, reported) in [
        ("vec![todo!()]", true),
        ("println!(\"{}\", if a { (1, unimplemented!(\"later\")) } else { b })", true),
        ("println!(\"todo!()\")", false),
        ("assert!(todo != (a))", false),
    ] {
        let src: &'static str = String::leak(format!(
            "fn map_request(request: R) {{ match request {{ R::A => handler() }} }} \
             fn handler() {{ {body}; }}"
        ));
        let violations = dispatched_todo_violations(&[HandlerFile { tag: "t", src }]);
        let entries: &[(&str, &str)] = if reported { &[("t", "handler")] } else { &[] };
        assert_eq!(violations, expected(entries), "{body}");
    }
}

#[test]
fn arms_that_refuse_contribute_nothing() {
    for (arm, reported) in [
        ("return Err(mk())", false),
        ("return Err(mk()),", false),
        ("{ return Err(mk()) }", false),
        ("{ log(mk()); return Err(mk()); }", false),
        ("return Result::Err(mk())", false),
        ("(mk(), not_available()?)", false),
        ("vec![mk(), not_available()?]", false),
        ("{ mk(); vec![shared::not_available()] }", false),
        ("vec![mk()]", true),
        ("return Reply::Err(mk())", true),
        ("Resp::A(shared::not_available(mk())?)", false),
        ("return Ok(mk())", true),
        ("Err(mk())", true),
        ("{ if a { return Err(0) } mk() }", true),
        ("mk()", true),
    ] {
        let src: &'static str = String::leak(format!(
            "fn map_request(request: R) {{ Ok(match request {{ R::A => {arm} }}) }} \
             fn mk() -> E {{ todo!() }}"
        ));
        let violations = dispatched_todo_violations(&[HandlerFile { tag: "t", src }]);
        let entries: &[(&str, &str)] = if reported { &[("t", "mk")] } else { &[] };
        assert_eq!(violations, expected(entries), "{arm}");
    }
}

#[test]
fn refusing_arms_do_not_hide_other_arms() {
    let files = [HandlerFile {
        tag: "t",
        src: "fn map_request(request: R) { Ok(match request { R::A => return Err(mk()), \
              R::B => not_available(a())?, R::C => b() }) } \
              fn mk() { todo!() } fn a() { todo!() } fn b() { todo!() }",
    }];

    assert_eq!(dispatched_todo_violations(&files), expected(&[("t", "b")]));
}

fn returned(segments: &[&str]) -> StatementSyntax {
    StatementSyntax::Return(ReturnedSyntax::Call(path(segments)))
}

fn arm(body: BodySyntax, calls: Vec<Option<Vec<String>>>) -> ArmSyntax {
    ArmSyntax { body, calls, macros: vec![] }
}

#[test]
fn refusing_arms_are_told_by_what_they_hold() {
    let other = || StatementSyntax::Other;
    let block = |statements| arm(BodySyntax::Block(statements), vec![]);
    let plain = |statement| arm(BodySyntax::Plain(statement), vec![]);
    assert!(is_err_arm(&plain(returned(&["Err"]))));
    assert!(is_err_arm(&plain(returned(&["std", "result", "Result", "Err"]))));
    assert!(is_err_arm(&block(vec![other(), returned(&["Result", "Err"])])));
    assert!(!is_err_arm(&block(vec![returned(&["Err"]), other()])));
    assert!(!is_err_arm(&block(vec![])));
    assert!(!is_err_arm(&plain(returned(&["Reply", "Err"]))));
    assert!(!is_err_arm(&plain(returned(&["Ok"]))));
    assert!(!is_err_arm(&plain(returned(&[]))));
    assert!(!is_err_arm(&plain(StatementSyntax::Return(ReturnedSyntax::Call(None)))));
    assert!(!is_err_arm(&plain(StatementSyntax::Return(ReturnedSyntax::Nothing))));
    assert!(!is_err_arm(&plain(StatementSyntax::Return(ReturnedSyntax::Other))));
    assert!(!is_err_arm(&arm(BodySyntax::Plain(other()), vec![path(&["Err"])])));

    let calls = vec![None, path(&["shared", "not_available"])];
    assert!(is_not_available_arm(&arm(BodySyntax::Plain(other()), calls)));
    assert!(!is_not_available_arm(&plain(returned(&["not_available"]))));
    let macros = vec![mac(
        &["vec"],
        vec![word("not_available"), TokenSyntax::Open(Some('(')), TokenSyntax::Close],
    )];
    let body = BodySyntax::Plain(other());
    assert!(is_not_available_arm(&ArmSyntax { body, calls: vec![], macros }));
}

#[test]
fn calls_are_found_in_what_a_macro_is_given() {
    let open = |bracket| TokenSyntax::Open(Some(bracket));
    let close = || TokenSyntax::Close;
    let found = |tokens| calls_in(&vec![], &vec![mac(&["vec"], tokens)]);
    let f = || vec![(None, String::from("f"))];
    let module = |name: &str| vec![(Some(String::from(name)), String::from("f"))];

    assert_eq!(found(vec![word("f"), open('('), close()]), f());
    assert_eq!(found(vec![word("m"), word(":"), word(":"), word("f"), open('('), close()]), module("m"));
    assert_eq!(found(vec![word(","), word(":"), word(":"), word("f"), open('('), close()]), f());
    assert_eq!(found(vec![word("."), word("."), word("f"), open('('), close()]), f());
    for tokens in [
        vec![word("f"), open('['), close()],
        vec![word("f"), open('{'), close()],
        vec![word("x"), word("."), word("f"), open('('), close()],
        vec![word("fn"), word("f"), open('('), close()],
        vec![word("+"), open('('), close()],
        vec![word("f"), word("!"), open('('), close()],
        vec![word("f")],
        vec![],
    ] {
        assert_eq!(found(tokens), vec![]);
    }
    assert_eq!(calls_in(&vec![None, path(&["m", "f"])], &vec![]), module("m"));
}

#[test]
fn calls_inside_macro_arguments_are_followed() {
    for (body, reported) in [
        ("vec![helper()]", true),
        ("println!(\"{}\", [a, (t::helper(b))])", true),
        ("vec![format!(\"{}\", helper(1))]", true),
        ("vec![x.helper()]", false),
        ("vec![helper]", false),
        ("vec![helper[0]]", false),
        ("println!(\"helper()\")", false),
    ] {
        let src: &'static str = String::leak(format!(
            "fn map_request(request: R) {{ match request {{ R::A => handler() }} }} \
             fn handler() {{ {body}; }} fn helper() {{ todo!() }}"
        ));
        let violations = dispatched_todo_violations(&[HandlerFile { tag: "t", src }]);
        let entries: &[(&str, &str)] = if reported { &[("t", "handler")] } else { &[] };
        assert_eq!(violations, expected(entries), "{body}");
    }
}

#[test]
fn calls_resolve_in_their_file_or_the_module_that_they_name() {
    let mut table = FnTable::new();
    table.insert("t", "f", FnInfo { has_direct_todo: false, calls: vec![] });

    let here = (None, String::from("f"));
    let there = (Some(String::from("t")), String::from("f"));
    let found = Some((String::from("t"), String::from("f")));
    assert_eq!(resolve_call("t", &here, &table), found);
    assert_eq!(resolve_call("other", &there, &table), found);
    assert_eq!(resolve_call("other", &here, &table), None);
}

#[test]
fn violations_are_found_in_parsed_files() {
    let mapper = FnSyntax {
        name: String::from("map_request"),
        macros: vec![],
        calls: vec![],
        matches: vec![MatchSyntax {
            scrutinee: Some(String::from("request")),
            arms: vec![
                arm(
                    BodySyntax::Plain(StatementSyntax::Other),
                    vec![path(&["handler"]), None],
                ),
                arm(
                    BodySyntax::Plain(StatementSyntax::Other),
                    vec![path(&["other"]), path(&["not_available"])],
                ),
                arm(
                    BodySyntax::Plain(returned(&["Err"])),
                    vec![path(&["Err"]), path(&["other"])],
                ),
            ],
        }],
    };
    let unfinished = |name| FnSyntax {
        name: String::from(name),
        macros: vec![mac(&["todo"], vec![])],
        calls: vec![],
        matches: vec![],
    };
    let files = vec![ParsedHandlerFile {
        tag: String::from("t"),
        items: vec![
            ItemSyntax::Other,
            ItemSyntax::Fn(mapper),
            ItemSyntax::Fn(unfinished("handler")),
            ItemSyntax::Fn(unfinished("other")),
        ],
    }];

    assert_eq!(violations(&files), expected(&[("t", "handler")]));
}

#[test]
fn listing_of_files_does_not_matter() {
    let a = || HandlerFile {
        tag: "a",
        src: "fn map_request(request: R) { match request { R::A => h(), R::B => b::g() } } fn h() { b::g() }",
    };
    let b = || HandlerFile { tag: "b", src: "fn g() { todo!() }" };
    let c = || HandlerFile { tag: "c", src: "fn g() {} fn h() {}" };

    let both = expected(&[("a", "g"), ("a", "h")]);
    assert_eq!(dispatched_todo_violations(&[a(), b()]), both);
    assert_eq!(dispatched_todo_violations(&[b(), a()]), both);
    assert_eq!(dispatched_todo_violations(&[c(), b(), a()]), both);
    assert_eq!(dispatched_todo_violations(&[a()]), expected(&[]));
}
