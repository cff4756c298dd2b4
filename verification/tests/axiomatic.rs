use isla::axiomatic::at_file::{process_at_file, process_at_line, AtLine, AtLineError, PathLine};
use isla::axiomatic::group::GroupIndex;
use isla::axiomatic::hash::{hash_message, hex_text};
use isla::axiomatic::options::{
    candidate_heading, divide_threads, dot_file_name, dot_place, group_runs, job_name,
    merge_translations, parse_graph_mode, parse_padding, parse_pc_limit_mode, parse_remove_uninteresting,
    png_file_name, split_list, DotPlace, GraphMode, PCLimitMode, Translator,
};
use isla::axiomatic::names::{initial_walks, is_stage_one, name_address, name_addresses, NameKind, NamedTable, ValueNames};
use isla::axiomatic::queue::ResultQueue;
use isla::axiomatic::refs::{parse_expected, process_refs, RefsError, RefsFailure};
use isla::axiomatic::report::{exit_code, find_error_lines, head, print_results};
use isla::axiomatic::result::{classify, negate_result, wanted_graph, AxResult, WantedGraph};
use isla::bitvector::B64;

fn lines(text: &[&str]) -> Vec<Result<String, String>> {
    text.iter().map(|s| Ok(s.to_string())).collect()
}

fn some(s: &str) -> Option<String> {
    Some(s.to_string())
}

#[test]
fn results_have_names() {
    assert_eq!(AxResult::Allowed(None).short_name(), "allowed");
    assert_eq!(AxResult::Forbidden(None).short_name(), "forbidden");
    assert_eq!(AxResult::Error(None, String::new()).short_name(), "error");
    assert_eq!(AxResult::Allowed(None).state(), "allow");
    assert_eq!(AxResult::Forbidden(None).state(), "forbid");
    assert_eq!(AxResult::Error(None, String::new()).state(), "err");
    assert_eq!(AxResult::Forbidden(Some(3)).graph(), Some(3));
}

#[test]
fn results_match_by_kind() {
    assert!(AxResult::Allowed(None).matches(&AxResult::Allowed(Some(1))));
    assert!(!AxResult::Allowed(None).matches(&AxResult::Forbidden(None)));
    assert!(AxResult::Error(None, "a".to_string()).matches(&AxResult::Error(None, "b".to_string())));
    assert!(AxResult::Allowed(None).is_allowed());
    assert!(AxResult::Error(None, String::new()).is_error());
}

#[test]
fn negation_twice_is_no_negation() {
    assert!(matches!(negate_result(AxResult::Allowed(Some(1))), AxResult::Forbidden(None)));
    assert!(matches!(negate_result(AxResult::Forbidden(None)), AxResult::Allowed(None)));
    assert!(negate_result(negate_result(AxResult::Allowed(None))).is_allowed());
}

#[test]
fn solver_output_is_classified() {
    assert!(matches!(classify("sat\n(model)", Some(2)), AxResult::Allowed(Some(2))));
    assert!(matches!(classify("unsat", None), AxResult::Forbidden(None)));
    assert!(matches!(classify("timeout", None), AxResult::Error(None, s) if s == "timeout"));
    assert_eq!(wanted_graph("sat", true, false), Some(WantedGraph::FromOutput));
    assert_eq!(wanted_graph("sat", false, true), None);
    assert_eq!(wanted_graph("unsat", true, true), Some(WantedGraph::FromUnsat));
    assert_eq!(wanted_graph("unsat", true, false), None);
}

#[test]
fn groups_share_the_tests() {
    let tests: Vec<u32> = (0..7).collect();
    let mut seen = Vec::new();
    for group in 0..3 {
        let mut index = GroupIndex::new(&tests, group, 3);
        let mut mine = Vec::new();
        while let Some(t) = index.next() {
            mine.push(*t);
        }
        assert!(index.next().is_none());
        assert!(mine.iter().all(|t| *t as usize % 3 == group));
        seen.extend(mine);
    }
    seen.sort();
    assert_eq!(seen, tests);
}

#[test]
fn queue_keeps_the_order() {
    let mut queue = ResultQueue::new();
    queue.push(AxResult::Allowed(Some(1)));
    queue.push(AxResult::Forbidden(Some(2)));
    queue.push(AxResult::Error(Some(3), "e".to_string()));
    assert!(matches!(queue.pop(), Some(AxResult::Allowed(Some(1)))));
    let rest = queue.drain();
    assert_eq!(rest.len(), 2);
    assert_eq!(rest[0].graph(), Some(2));
    assert_eq!(rest[1].graph(), Some(3));
    assert!(queue.pop().is_none());
}

#[test]
fn references_are_read() {
    let refs = process_refs(&lines(&[
        "a comment",
        "Test MP Allowed",
        "States 2",
        "0:x1=1;",
        "0:x1=2;",
        "Ok",
        "",
        "Test SB Allowed",
        "States 0",
        "No",
        "Test LB Required",
        "States +1",
        "0:x1=1;",
        "Ok witnesses",
    ]))
    .ok()
    .unwrap();
    assert!(matches!(refs.get("MP"), Some(AxResult::Allowed(None))));
    assert!(matches!(refs.get("SB"), Some(AxResult::Forbidden(None))));
    assert!(matches!(refs.get("LB"), Some(AxResult::Forbidden(None))));
    assert!(refs.get("IRIW").is_none());
}

fn failure(text: &[&str]) -> RefsFailure {
    match process_refs(&lines(text)) {
        Ok(_) => panic!("expected a failure"),
        Err(e) => e,
    }
}

fn refs_text(f: RefsFailure) -> String {
    match f {
        RefsFailure::Refs(e) => e.text(),
        _ => panic!("expected an error in the references"),
    }
}

#[test]
fn bad_references_are_reported() {
    assert_eq!(refs_text(failure(&["Test"])), "Expected test name on line: Test");
    assert_eq!(refs_text(failure(&["Test MP"])), "Expected test name on line: Test MP");
    assert_eq!(refs_text(failure(&["Test MP Maybe"])), "Expected `Allowed` or `Forbidden` got: Maybe");
    assert_eq!(
        refs_text(failure(&["Test MP Allowed", "Stats 1"])),
        "Expected a line containing `States <n>`: Stats 1"
    );
    assert_eq!(
        refs_text(failure(&["Test MP Allowed", "States"])),
        "Expected a line containing `States <n>`: States"
    );
    assert_eq!(
        refs_text(failure(&["Test MP Allowed", "States 0", "Yes"])),
        "Expected a line starting with either `Ok or No`: Yes"
    );
    assert_eq!(refs_text(failure(&["Test MP Allowed"])), "Unexpected end-of-file");
    assert_eq!(refs_text(failure(&["Test MP Allowed", "States 3", "a", "b"])), "Unexpected end-of-file");
    assert!(matches!(failure(&["Test MP Allowed", "States x"]), RefsFailure::BadNumber(s) if s == "x"));
    assert!(matches!(
        failure(&["Test MP Allowed", "States 99999999999999999999999"]),
        RefsFailure::BadNumber(_)
    ));
    let broken = vec![Ok("Test MP Allowed".to_string()), Err("disk".to_string())];
    assert!(matches!(process_refs(&broken), Err(RefsFailure::Unreadable(s)) if s == "disk"));
}

#[test]
fn expectations() {
    assert!(matches!(parse_expected("Allowed"), Ok(AxResult::Allowed(None))));
    assert!(matches!(parse_expected("Required"), Ok(AxResult::Forbidden(None))));
    assert!(matches!(parse_expected("allowed"), Err(RefsError::BadExpected(_))));
}

fn path_line(line: &str, file_name: Option<&str>, extension: Option<&str>) -> PathLine {
    PathLine {
        line: line.to_string(),
        file_name: file_name.map(String::from),
        extension: extension.map(String::from),
    }
}

#[test]
fn lines_name_tests_and_files() {
    assert_eq!(process_at_line(&path_line("a.litmus", Some("a.litmus"), Some("litmus"))), Some(AtLine::Test));
    assert_eq!(process_at_line(&path_line("a.toml", Some("a.toml"), Some("toml"))), Some(AtLine::Test));
    assert_eq!(process_at_line(&path_line("@all.txt", Some("@all.txt"), Some("txt"))), Some(AtLine::AtFile));
    assert_eq!(process_at_line(&path_line("@all.toml", Some("@all.toml"), Some("toml"))), Some(AtLine::AtFile));
    assert_eq!(process_at_line(&path_line("", Some("dir.d"), Some("d"))), Some(AtLine::Nothing));
    assert_eq!(process_at_line(&path_line("a.txt", Some("a.txt"), Some("txt"))), None);
    assert_eq!(process_at_line(&path_line("@all", Some("@all"), None)), None);
    assert_eq!(process_at_line(&path_line("..", None, None)), None);
}

#[test]
fn files_of_tests() {
    let plan = process_at_file(&vec![
        path_line("# tests", Some("# tests"), None),
        path_line("", Some("dir"), None),
        path_line("a.litmus", Some("a.litmus"), Some("litmus")),
        path_line("@b.txt", Some("@b.txt"), Some("txt")),
    ]);
    assert_eq!(plan.steps, vec![(2, AtLine::Test), (3, AtLine::AtFile)]);
    assert!(plan.end.is_ok());
    let plan = process_at_file(&vec![
        path_line("a.litmus", Some("a.litmus"), Some("litmus")),
        path_line("what", Some("what"), None),
        path_line("b.litmus", Some("b.litmus"), Some("litmus")),
    ]);
    assert_eq!(plan.steps, vec![(0, AtLine::Test)]);
    match plan.end {
        Err(e) => assert_eq!(e.text(), "Could not parse line 1: what"),
        Ok(_) => panic!("expected an error"),
    }
    assert_eq!(AtLineError::NoParse(0, "x".to_string()).text(), "Could not parse line 0: x");
}

#[test]
fn reports_compare_with_references() {
    let results = vec![AxResult::Forbidden(None), AxResult::Allowed(None), AxResult::Allowed(None)];
    let report = print_results("MP", 12, &results, Some(&AxResult::Allowed(None)));
    let prefix = "MP allowed (2 of 3) reference: allowed 12ms ";
    let expected = format!("{:.<100} {}", prefix, "\x1b[92m\x1b[1mok\x1b[0m");
    assert_eq!(report.line, expected);
    assert!(!report.failure);
    let report = print_results("MP", 12, &results, Some(&AxResult::Forbidden(None)));
    assert!(report.failure);
    assert!(report.line.ends_with("\x1b[91m\x1b[1mfail\x1b[0m"));
    let report = print_results("MP", 12, &results, None);
    assert_eq!(report.line, format!("{:.<100} {}", "MP allowed (2 of 3) 12ms ", "\x1b[93m\x1b[1m?\x1b[0m"));
    assert!(!report.failure);
    assert_eq!(exit_code(false), 0);
    assert_eq!(exit_code(true), 1);
}

#[test]
fn reports_of_errors() {
    let results = vec![AxResult::Allowed(None), AxResult::Error(None, "oops".to_string())];
    let report = print_results("SB", 3, &results, Some(&AxResult::Allowed(None)));
    assert_eq!(report.error, Some(1));
    assert!(report.failure);
    assert!(report.line.starts_with("SB error (1 of 2) reference: allowed 3ms ...."));
    assert!(report.line.ends_with("\x1b[95m\x1b[1merror\x1b[0m"));
    let report = print_results("SB", 3, &vec![], Some(&AxResult::Allowed(None)));
    assert_eq!(
        report.line,
        format!("{:.<100} {}", "SB no executions 3", "\x1b[95m\x1b[1merror\x1b[0m")
    );
    assert!(!report.failure);
    let long = "x".repeat(120);
    let report = print_results(&long, 3, &vec![], None);
    assert_eq!(report.line, format!("{} no executions 3 \x1b[95m\x1b[1merror\x1b[0m", long));
}

#[test]
fn errors_in_solver_output() {
    let found = find_error_lines("start\n(error one)\r\nmore (error two)\n(error three)");
    assert_eq!(found, vec!["(error one)", "(error three)"]);
    assert!(find_error_lines("").is_empty());
    assert_eq!(head("0123456789abcdefgh"), "0123456789abcde");
    assert_eq!(head("short"), "short");
}

#[test]
fn options_are_read() {
    assert!(matches!(parse_remove_uninteresting(&None), Ok(None)));
    assert!(matches!(parse_remove_uninteresting(&some("all")), Ok(Some(false))));
    assert!(matches!(parse_remove_uninteresting(&some("safe")), Ok(Some(true))));
    assert_eq!(
        parse_remove_uninteresting(&some("none")).err(),
        some("Invalid option for --remove-uninteresting flag: none. Must be either 'all' or 'safe'")
    );
    assert_eq!(parse_pc_limit_mode(&None), Some(PCLimitMode::Error));
    assert_eq!(parse_pc_limit_mode(&some("error")), Some(PCLimitMode::Error));
    assert_eq!(parse_pc_limit_mode(&some("discard")), Some(PCLimitMode::Discard));
    assert_eq!(parse_pc_limit_mode(&some("x")), None);
    assert_eq!(parse_graph_mode(&None), Some(GraphMode::Disabled));
    assert_eq!(parse_graph_mode(&some("ascii")), Some(GraphMode::ASCII));
    assert_eq!(parse_graph_mode(&some("dot")), Some(GraphMode::Dot));
    assert_eq!(parse_graph_mode(&some("none")), Some(GraphMode::Disabled));
    assert_eq!(parse_graph_mode(&some("svg")), None);
    assert_eq!(merge_translations(false, true), None);
    assert_eq!(merge_translations(true, true), Some(true));
}

#[test]
fn threads_are_divided() {
    assert_eq!(divide_threads(8, 2), Some((4, 2)));
    assert_eq!(divide_threads(8, 3), None);
    assert_eq!(divide_threads(0, 3), Some((0, 3)));
    assert!(group_runs(1, None));
    assert!(group_runs(1, Some(1)));
    assert!(!group_runs(1, Some(2)));
}

#[test]
fn graphs_are_placed() {
    assert_eq!(dot_place(true, true, true), DotPlace::Given);
    assert_eq!(dot_place(false, true, false), DotPlace::Temporary);
    assert_eq!(dot_place(false, false, true), DotPlace::Temporary);
    assert_eq!(dot_place(false, false, false), DotPlace::Nowhere);
    assert_eq!(dot_file_name("MP", "allow", 0), "MP_allow_1.dot");
    assert_eq!(png_file_name("MP", 9), "MP_10.png");
    assert_eq!(candidate_heading(1, 4, "forbid"), "Candidate 2/4 (forbid):");
    assert_eq!(job_name(3, 14), "g3t14");
}

#[test]
fn translators_are_invoked() {
    assert_eq!(Translator::LitmusTranslator.path(&None), "litmus-translator");
    assert_eq!(Translator::IslaLitmus.path(&None), "isla-litmus");
    assert_eq!(Translator::IslaLitmus.path(&some("/bin/il")), "/bin/il");
    assert_eq!(Translator::LitmusTranslator.arguments(true), vec!["-variant", "VMSA"]);
    assert_eq!(Translator::IslaLitmus.arguments(true), vec!["--armv8-page-tables"]);
    assert!(Translator::IslaLitmus.arguments(false).is_empty());
}

#[test]
fn addresses_are_named() {
    let names = name_address("pa1", 0x12345678);
    assert_eq!(names.kind, NameKind::Physical);
    assert_eq!(names.address, (B64::new(0x12345678, 64), "pa1".to_string()));
    assert_eq!(names.page, (B64::new(0x12345, 42), "page(pa1)".to_string()));
    assert_eq!(name_address("ipa1", 0).kind, NameKind::Intermediate);
    assert_eq!(name_address("x", 0).kind, NameKind::Virtual);
    assert_eq!(is_stage_one("stage 1"), Some(true));
    assert_eq!(is_stage_one("stage 2"), Some(false));
    assert_eq!(is_stage_one("stage 3"), None);
}

#[test]
fn names_of_addresses_are_collected() {
    let addrs = vec![
        ("pa1".to_string(), 0x5000),
        ("ipa1".to_string(), 0x6000),
        ("x".to_string(), 0x7008),
        ("y".to_string(), 0x7010),
        ("z".to_string(), 0x7010),
    ];
    let names = name_addresses(&addrs);
    assert_eq!(names.pa_names.get(B64::new(0x5000, 64)), Some("pa1"));
    assert_eq!(names.pa_names.get(B64::new(0x5, 42)), Some("page(pa1)"));
    assert_eq!(names.pa_names.get(B64::new(0x5, 64)), None);
    assert_eq!(names.ipa_names.get(B64::new(0x6000, 64)), Some("ipa1"));
    assert_eq!(names.ipa_names.get(B64::new(0x5000, 64)), None);
    assert_eq!(names.va_names.get(B64::new(0x7008, 64)), Some("x"));
    // The last name holds.
    assert_eq!(names.va_names.get(B64::new(0x7010, 64)), Some("z"));
    assert_eq!(names.va_names.get(B64::new(0x7, 42)), Some("page(z)"));
    assert_eq!(ValueNames::new().get(B64::new(0, 64)), None);
}

#[test]
fn walks_go_through_all_tables() {
    let table = |name: &str, base: u64, kind: &str| NamedTable {
        name: name.to_string(),
        base,
        kind: kind.to_string(),
    };
    let addrs = vec![("x".to_string(), 0x1000), ("y".to_string(), 0x2000)];
    let tables = vec![table("s1_default", 0x300000, "stage 1"), table("s2_default", 0x200000, "stage 2")];
    let walks = initial_walks(&tables, &addrs);
    let seen: Vec<_> = walks
        .iter()
        .map(|w| (w.stage_one, w.va_name.as_str(), w.va.bits, w.table_name.as_str(), w.base))
        .collect();
    assert_eq!(
        seen,
        vec![
            (true, "x", 0x1000, "s1_default", 0x300000),
            (true, "y", 0x2000, "s1_default", 0x300000),
            (false, "x", 0x1000, "s2_default", 0x200000),
            (false, "y", 0x2000, "s2_default", 0x200000),
        ]
    );
    assert!(initial_walks(&vec![table("t", 0, "stage 3")], &Vec::new()).is_empty());
}

#[test]
fn one_element_is_all_there_is_without_groups() {
    let tests = vec![10, 20, 30];
    let mut index = GroupIndex::new(&tests, 1, 0);
    assert_eq!(index.next(), Some(&20));
    assert_eq!(index.next(), Some(&20));
    assert_eq!(GroupIndex::new(&tests, 3, 0).next(), None);
}

#[test]
fn lists_are_split() {
    assert_eq!(split_list("a,b"), vec!["a", "b"]);
    assert_eq!(split_list("a"), vec!["a"]);
    assert_eq!(split_list(",a,"), vec!["", "a", ""]);
    assert_eq!(split_list(""), vec![""]);
}

#[test]
fn padding_is_read() {
    let pair = |a: &str, b: &str| (a.to_string(), b.to_string());
    assert_eq!(parse_padding("x=1,y=2.5"), Some(vec![pair("x", "1"), pair("y", "2.5")]));
    assert_eq!(parse_padding("x="), Some(vec![pair("x", "")]));
    assert_eq!(parse_padding("x"), None);
    assert_eq!(parse_padding("x=1,y=2=3"), None);
    assert_eq!(parse_padding(""), None);
}

#[test]
fn hashes_are_written_out() {
    assert_eq!(hex_text(&vec![0, 15, 16, 255]), "000f10ff");
    assert_eq!(hex_text(&Vec::new()), "");
    assert_eq!(
        hash_message(&b"abc".to_vec()),
        "Architecture + config hash: ba7816bf8f01cfea414140de5dae2223b00361a396177a9cb410ff61f20015ad"
    );
    assert_eq!(
        hash_message(&Vec::new()),
        "Architecture + config hash: e3b0c44298fc1c149afbf4c8996fb92427ae41e4649b934ca495991b7852b855"
    );
}
