use std::cmp::Ordering;

use alt_index::closeness::{shared_count, FilePathIterator};
use alt_index::cmdline::{_default_timeout, _replace_args, join_chars};
use alt_index::declarations::{
    find_decl_by_caller_guid, find_decl_by_name, find_decl_by_name_for_single_path, FileSymbols,
    SymbolRecord,
};
use alt_index::snippets::{lines, parse_snippets, read_snippet};
use alt_index::{PatchAction, SymbolType, TicketToApply};

fn strings(parts: &[&str]) -> Vec<String> {
    parts.iter().map(|part| part.to_string()).collect()
}

fn chars(text: &str) -> Vec<char> {
    text.chars().collect()
}

fn ticket(action: PatchAction, name: &str, file: &str, code: &str) -> TicketToApply {
    TicketToApply {
        action,
        ticket: name.to_string(),
        filename_before: file.to_string(),
        filename_after: String::new(),
        code: code.to_string(),
    }
}

#[test]
fn lines_end_with_line_feeds() {
    assert_eq!(lines(""), Vec::<Vec<char>>::new());
    assert_eq!(lines("a"), vec![chars("a")]);
    assert_eq!(lines("a\n"), vec![chars("a")]);
    assert_eq!(lines("a\n\nb\r\nc\r"), vec![chars("a"), chars(""), chars("b"), chars("c\r")]);
    assert_eq!(lines("\n"), vec![chars("")]);
    let text = "one\r\ntwo\n\r\nthree";
    let expected: Vec<Vec<char>> = text.lines().map(|line| line.chars().collect()).collect();
    assert_eq!(lines(text), expected);
}

#[test]
fn snippets_are_read_from_a_reply() {
    let reply = "Here you go:\n\
                 \u{1f4cd}PARTIAL_EDIT 000 /home/user/my_file.py\n\
                 ```python\n\
                 def f(): pass\n\
                 \n\
                 x = 1\n\
                 ```\n\
                 skipped line\n\
                 \u{1f4cd}OTHER 001 pseudo\n\
                 ```bash\n\
                 python my_file.py\n\
                 ```\n";
    assert_eq!(
        parse_snippets(reply),
        vec![
            ticket(
                PatchAction::PartialEdit,
                "000",
                "/home/user/my_file.py",
                "def f(): pass\n\nx = 1\n"
            ),
            ticket(PatchAction::Other, "001", "pseudo", "python my_file.py\n"),
        ]
    );
}

#[test]
fn the_line_after_a_closing_fence_is_not_searched() {
    let reply = "\u{1f4cd}NEW_FILE 1 /a\n```\ncode\n```\n\u{1f4cd}NEW_FILE 2 /b\n```\nlost\n```\n";
    assert_eq!(parse_snippets(reply), vec![ticket(PatchAction::NewFile, "1", "/a", "code\n")]);
}

#[test]
fn broken_snippets_are_passed_over() {
    assert_eq!(parse_snippets("\u{1f4cd}OTHER 001\n```\nx\n```\n"), vec![]);
    assert_eq!(parse_snippets("\u{1f4cd}REWRITE 001 /a\n```\nx\n```\n"), vec![]);
    assert_eq!(parse_snippets("\u{1f4cd}OTHER 001 /a"), vec![]);
    assert_eq!(parse_snippets("\u{1f4cd}OTHER 001 /a\nno fence\n```\n"), vec![]);
    assert_eq!(parse_snippets("\u{1f4cd}OTHER 001 /a\n```\nnever closed\n"), vec![]);
    assert_eq!(parse_snippets("\u{1f4cd}OTHER  001 /a\n```\nx\n```\n"), vec![ticket(
        PatchAction::Other,
        "",
        "001",
        "x\n"
    )]);
    assert_eq!(
        parse_snippets("  \u{1f4cd}FULL_REWRITE 7 /a extra words  \n```\n```"),
        vec![ticket(PatchAction::FullRewrite, "7", "/a", "")]
    );
}

#[test]
fn read_snippet_gives_the_line_of_the_closing_fence() {
    let text = lines("\u{1f4cd}OTHER 001 /a\n```\nx\ny\n```\nrest");
    match read_snippet(&text, 0) {
        Some((end, found)) => {
            assert_eq!(end, 4);
            assert_eq!(found, ticket(PatchAction::Other, "001", "/a", "x\ny\n"));
        }
        None => panic!("the snippet was not read"),
    }
    assert_eq!(read_snippet(&text, 2), None);
}

#[test]
fn default_timeout_is_ten_seconds() {
    assert_eq!(_default_timeout(), 10);
}

#[test]
fn placeholders_are_replaced_by_arguments() {
    let args = vec![
        ("file".to_string(), "main.rs".to_string()),
        ("dir".to_string(), "/src".to_string()),
    ];
    assert_eq!(_replace_args("cat %dir%/%file% %file%% %other%", &args), "cat /src/main.rs main.rs% %other%");
    assert_eq!(_replace_args("nothing", &args), "nothing");
    assert_eq!(_replace_args("%file%", &vec![]), "%file%");
    let chained = vec![("a".to_string(), "%b%".to_string()), ("b".to_string(), "x".to_string())];
    assert_eq!(_replace_args("%a%", &chained), "x");
    let text = "%%file%%file%";
    assert_eq!(_replace_args(text, &args), text.replace("%file%", "main.rs"));
    assert_eq!(join_chars(&vec![chars("a"), chars(""), chars("b")], &chars(", ")), chars("a, , b"));
}

#[test]
fn closeness_counts_shared_leading_components() {
    let start = strings(&["home", "me", "proj", "src", "a.rs"]);
    assert_eq!(shared_count(&start, &strings(&["home", "me", "proj", "src", "b.rs"])), 4);
    assert_eq!(shared_count(&start, &strings(&["home", "me"])), 2);
    assert_eq!(shared_count(&start, &strings(&["usr", "me", "proj"])), 0);
    assert_eq!(shared_count(&start, &start), 5);
    assert_eq!(shared_count(&vec![], &start), 0);
}

#[test]
fn compare_paths_puts_the_closer_first() {
    let start = strings(&["p", "src", "a.rs"]);
    let near = strings(&["p", "src", "b.rs"]);
    let far = strings(&["p", "lib", "c.rs"]);
    assert_eq!(FilePathIterator::compare_paths(&start, &near, &far), Ordering::Less);
    assert_eq!(FilePathIterator::compare_paths(&start, &far, &near), Ordering::Greater);
    assert_eq!(FilePathIterator::compare_paths(&start, &far, &far), Ordering::Equal);
}

#[test]
fn files_are_walked_from_the_closest() {
    let start = strings(&["p", "src", "ast", "a.rs"]);
    let all = vec![
        strings(&["q", "x.rs"]),
        strings(&["p", "src", "b.rs"]),
        strings(&["p", "src", "ast", "c.rs"]),
        strings(&["p", "lib.rs"]),
        strings(&["p", "src", "ast", "a.rs"]),
        strings(&["p", "src", "d.rs"]),
        strings(&["r", "y.rs"]),
    ];
    let mut expected = all.clone();
    expected.sort_by(|a, b| FilePathIterator::compare_paths(&start, a, b));
    let mut walk = FilePathIterator::new(start.clone(), all.clone());
    assert_eq!(walk.paths, expected);
    assert_eq!(
        walk.paths,
        vec![
            all[4].clone(),
            all[2].clone(),
            all[1].clone(),
            all[5].clone(),
            all[3].clone(),
            all[0].clone(),
            all[6].clone(),
        ]
    );
    let mut seen = Vec::new();
    while let Some(path) = walk.next() {
        seen.push(path);
    }
    assert_eq!(seen, expected);
    assert_eq!(walk.next(), None);
}

fn symbol(
    guid: &str,
    name: &str,
    symbol_type: SymbolType,
    file: &[&str],
    parent: Option<&str>,
) -> SymbolRecord {
    SymbolRecord {
        guid: guid.to_string(),
        name: name.to_string(),
        symbol_type,
        file_path: strings(file),
        parent_guid: parent.map(|p| p.to_string()),
        linked_decl_guid: None,
        return_type_guid: None,
    }
}

fn world() -> Vec<SymbolRecord> {
    let lib = ["p", "lib.h"];
    let main = ["p", "main.cpp"];
    let mut make_goat = symbol("g-make", "make_goat", SymbolType::FunctionDeclaration, &lib, None);
    make_goat.return_type_guid = Some("g-goat-var".to_string());
    let mut call = symbol("g-call", "make_goat", SymbolType::FunctionCall, &main, Some("g-main"));
    call.linked_decl_guid = Some("g-make".to_string());
    let mut var_use = symbol("g-use", "goat1", SymbolType::VariableUsage, &main, Some("g-main"));
    var_use.linked_decl_guid = Some("g-goat-var".to_string());
    vec![
        symbol("g-animal", "Animal", SymbolType::StructDeclaration, &lib, None),
        symbol("g-age", "age", SymbolType::ClassFieldDeclaration, &lib, Some("g-animal")),
        symbol("g-say", "say", SymbolType::FunctionDeclaration, &lib, Some("g-animal")),
        symbol("g-goat-var", "goat1", SymbolType::VariableDefinition, &lib, Some("g-animal")),
        make_goat,
        symbol("g-main", "main", SymbolType::FunctionDeclaration, &main, None),
        call,
        var_use,
        symbol("g-say-main", "say", SymbolType::FunctionDeclaration, &main, None),
        symbol("g-local", "age", SymbolType::VariableDefinition, &main, Some("g-main")),
    ]
}

#[test]
fn declaration_is_found_through_the_caller() {
    let all = world();
    let field_use = symbol("u1", "age", SymbolType::VariableUsage, &["p", "main.cpp"], Some("g-main"));
    assert_eq!(find_decl_by_caller_guid(&field_use, "g-use", &all), Some("g-age".to_string()));
    let method_call = symbol("u2", "say", SymbolType::FunctionCall, &["p", "main.cpp"], Some("g-main"));
    assert_eq!(find_decl_by_caller_guid(&method_call, "g-call", &all), Some("g-say".to_string()));
    assert_eq!(find_decl_by_caller_guid(&method_call, "g-use", &all), Some("g-say".to_string()));
    assert_eq!(find_decl_by_caller_guid(&method_call, "g-main", &all), None);
    assert_eq!(find_decl_by_caller_guid(&method_call, "missing", &all), None);
    let not_a_usage = symbol("u3", "say", SymbolType::FunctionDeclaration, &["p"], None);
    assert_eq!(find_decl_by_caller_guid(&not_a_usage, "g-call", &all), None);
    let unknown_member = symbol("u4", "weight", SymbolType::VariableUsage, &["p"], None);
    assert_eq!(find_decl_by_caller_guid(&unknown_member, "g-use", &all), None);
}

#[test]
fn declaration_is_found_by_name_from_the_scope_outwards() {
    let all = world();
    let main_file: Vec<SymbolRecord> =
        all.iter().filter(|s| s.file_path == strings(&["p", "main.cpp"])).cloned().collect();
    let kind = SymbolType::VariableDefinition;
    assert_eq!(
        find_decl_by_name_for_single_path("age", "g-main", &kind, &main_file, &all),
        Some("g-local".to_string())
    );
    assert_eq!(find_decl_by_name_for_single_path("age", "", &kind, &main_file, &all), None);
    let function = SymbolType::FunctionDeclaration;
    assert_eq!(
        find_decl_by_name_for_single_path("say", "g-main", &function, &main_file, &all),
        Some("g-say-main".to_string())
    );
    assert_eq!(
        find_decl_by_name_for_single_path("say", "nowhere", &function, &main_file, &all),
        Some("g-say-main".to_string())
    );
    assert_eq!(find_decl_by_name_for_single_path("gone", "g-main", &function, &main_file, &all), None);
}

#[test]
fn a_circle_of_parents_ends_the_search() {
    let file = ["p", "x"];
    let all = vec![
        symbol("a", "A", SymbolType::StructDeclaration, &file, Some("b")),
        symbol("b", "B", SymbolType::StructDeclaration, &file, Some("a")),
    ];
    let kind = SymbolType::FunctionDeclaration;
    assert_eq!(find_decl_by_name_for_single_path("f", "a", &kind, &all, &all), None);
}

#[test]
fn declaration_is_found_by_name_in_the_closest_file() {
    let all = world();
    let files = vec![
        FileSymbols {
            path: strings(&["p", "lib.h"]),
            symbols: all.iter().filter(|s| s.file_path == strings(&["p", "lib.h"])).cloned().collect(),
        },
        FileSymbols {
            path: strings(&["p", "main.cpp"]),
            symbols: all
                .iter()
                .filter(|s| s.file_path == strings(&["p", "main.cpp"]))
                .cloned()
                .collect(),
        },
    ];
    let call = symbol("u", "say", SymbolType::FunctionCall, &["p", "main.cpp"], Some("g-main"));
    assert_eq!(find_decl_by_name(&call, true, &files, &all), Some("g-say-main".to_string()));
    let from_lib = symbol("u", "make_goat", SymbolType::FunctionCall, &["p", "main.cpp"], Some("g-main"));
    assert_eq!(find_decl_by_name(&from_lib, true, &files, &all), Some("g-make".to_string()));
    let variable = symbol("u", "age", SymbolType::VariableUsage, &["p", "lib.h"], Some("g-animal"));
    assert_eq!(find_decl_by_name(&variable, false, &files, &all), None);
    let local = symbol("u", "age", SymbolType::VariableUsage, &["p", "main.cpp"], Some("g-main"));
    assert_eq!(find_decl_by_name(&local, false, &files, &all), Some("g-local".to_string()));
    let nested = symbol("u", "goat1", SymbolType::VariableUsage, &["p", "lib.h"], Some("g-animal"));
    assert_eq!(find_decl_by_name(&nested, false, &files, &all), Some("g-goat-var".to_string()));
    let elsewhere = symbol("u", "goat1", SymbolType::VariableUsage, &["p", "main.cpp"], Some("g-main"));
    assert_eq!(find_decl_by_name(&elsewhere, false, &files, &all), None);
}
