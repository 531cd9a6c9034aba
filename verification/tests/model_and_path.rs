use alt_index::codec::{read_record, row_definition, definition_row, write_record, Item};
use alt_index::keys::{
    d_key_string, full_path_of_key, index_key_string, marker_bytes, path_depth,
    usage_target_strings,
};
use alt_index::path::normalize_parsed_path;
use alt_index::text::{chars_of, find, split_chars, trim_chars};
use alt_index::{
    filesystem_path_to_double_colon_path, AltDefinition, PatchAction, Point, Range, SymbolType,
    TicketToApply, Usage,
};

fn strings(parts: &[&str]) -> Vec<String> {
    parts.iter().map(|part| part.to_string()).collect()
}

fn sample() -> AltDefinition {
    AltDefinition {
        official_path: strings(&["alt_testsuite", "cpp_goat_main", "CosmicJustice", "CosmicJustice"]),
        symbol_type: SymbolType::FunctionDeclaration,
        derived_from: vec![Usage {
            targets_for_guesswork: strings(&["?::Base", "Base"]),
            resolved_as: String::new(),
            debug_hint: "derived".to_string(),
        }],
        usages: vec![
            Usage {
                targets_for_guesswork: strings(&["?::CosmicJustice::balance"]),
                resolved_as: "alt_testsuite::cpp_goat_main::CosmicJustice::balance".to_string(),
                debug_hint: "up".to_string(),
            },
            Usage {
                targets_for_guesswork: vec![],
                resolved_as: String::new(),
                debug_hint: String::new(),
            },
        ],
        full_range: Range {
            start_byte: 0,
            end_byte: usize::MAX,
            start_point: Point { row: 1, column: 2 },
            end_point: Point { row: 30, column: 4 },
        },
        declaration_range: Range {
            start_byte: 5,
            end_byte: 6,
            start_point: Point { row: 7, column: 8 },
            end_point: Point { row: 9, column: 10 },
        },
        definition_range: Range {
            start_byte: 11,
            end_byte: 12,
            start_point: Point { row: 13, column: 14 },
            end_point: Point { row: 15, column: 16 },
        },
    }
}

#[test]
fn path_joins_components_with_double_colons() {
    assert_eq!(sample().path(), "alt_testsuite::cpp_goat_main::CosmicJustice::CosmicJustice");
    let mut single = sample();
    single.official_path = strings(&["only"]);
    assert_eq!(single.path(), "only");
    single.official_path = vec![];
    assert_eq!(single.path(), "");
}

#[test]
fn name_is_the_last_component() {
    assert_eq!(sample().name(), "CosmicJustice");
    let mut empty = sample();
    empty.official_path = vec![];
    assert_eq!(empty.name(), "");
}

#[test]
fn usage_text_shows_what_it_was_resolved_as_or_its_targets() {
    let def = sample();
    assert_eq!(def.derived_from[0].debug_string(), "Link{ derived ?::Base Base, unresolved }");
    assert_eq!(
        def.usages[0].debug_string(),
        "Link{ up alt_testsuite::cpp_goat_main::CosmicJustice::balance }"
    );
    assert_eq!(def.usages[1].debug_string(), "Link{  , unresolved }");
}

#[test]
fn definition_text_lists_usages_and_derivations() {
    let def = sample();
    assert_eq!(
        def.debug_string(),
        "AltDefinition { alt_testsuite::cpp_goat_main::CosmicJustice::CosmicJustice, usages: \
         Link{ up alt_testsuite::cpp_goat_main::CosmicJustice::balance } Link{  , unresolved }, \
         derived_from: Link{ derived ?::Base Base, unresolved } }"
    );
    let mut bare = sample();
    bare.usages = vec![];
    bare.derived_from = vec![];
    bare.official_path = strings(&["m", "f"]);
    assert_eq!(bare.debug_string(), "AltDefinition { m::f }");
}

#[test]
fn same_as_tells_definitions_apart() {
    let one = sample();
    let mut other = sample();
    assert!(one.same_as(&other));
    other.usages[1].debug_hint = "x".to_string();
    assert!(!one.same_as(&other));
    let mut moved = sample();
    moved.definition_range.end_point.column = 17;
    assert!(!one.same_as(&moved));
    let mut renamed = sample();
    renamed.symbol_type = SymbolType::FunctionCall;
    assert!(!one.same_as(&renamed));
}

#[test]
fn file_path_gives_the_leading_components() {
    assert_eq!(
        filesystem_path_to_double_colon_path("src/ast/alt_testsuite/cpp_goat_main.cpp"),
        strings(&["src", "ast", "alt_testsuite", "cpp_goat_main"])
    );
    assert_eq!(
        filesystem_path_to_double_colon_path("alt_testsuite/cpp_goat_library.h"),
        strings(&["alt_testsuite", "cpp_goat_library"])
    );
}

#[test]
fn file_path_edge_cases() {
    assert_eq!(
        filesystem_path_to_double_colon_path("C:\\Users\\me\\my file.tar.gz"),
        strings(&["C_", "Users", "me", "my_file_tar"])
    );
    assert_eq!(filesystem_path_to_double_colon_path("/a//b/"), strings(&["a", "b"]));
    assert_eq!(filesystem_path_to_double_colon_path("dir.d/file"), strings(&["dir_d", "file"]));
    assert_eq!(filesystem_path_to_double_colon_path("a/.hidden"), strings(&["a", "_hidden"]));
    assert_eq!(filesystem_path_to_double_colon_path(".hidden"), strings(&["_hidden"]));
    assert_eq!(filesystem_path_to_double_colon_path("a/b."), strings(&["a", "b"]));
    assert_eq!(filesystem_path_to_double_colon_path("na\u{ef}ve.rs"), strings(&["na_ve"]));
    assert_eq!(filesystem_path_to_double_colon_path(""), Vec::<String>::new());
    assert_eq!(filesystem_path_to_double_colon_path("///"), Vec::<String>::new());
}

#[test]
fn parsed_path_is_normalized_component_by_component() {
    assert_eq!(
        normalize_parsed_path(&strings(&["my-file", "Foo<T>", "operator==", "ok_1", ""])),
        strings(&["my_file", "Foo_T_", "operator__", "ok_1", ""])
    );
}

#[test]
fn keys_have_the_documented_shape() {
    assert_eq!(d_key_string("a::b"), "d/a::b");
    assert_eq!(index_key_string("c/", "b", "a::b"), "c/b \u{26a1} a::b");
    assert_eq!(index_key_string("u/", "x::y", "a"), "u/x::y \u{26a1} a");
    assert_eq!(
        index_key_string("c/", "b", "a::b").as_bytes(),
        &[0x63, 0x2f, 0x62, 0x20, 0xe2, 0x9a, 0xa1, 0x20, 0x61, 0x3a, 0x3a, 0x62]
    );
    assert_eq!(marker_bytes(), b"huu".to_vec());
}

#[test]
fn index_key_is_read_back() {
    assert_eq!(full_path_of_key("c/b \u{26a1} a::b", "c/b"), Some("a::b".to_string()));
    assert_eq!(full_path_of_key("c/b \u{26a1}   a::b \n", "c/b"), Some("a::b".to_string()));
    assert_eq!(full_path_of_key("c/bc \u{26a1} a::bc", "c/b"), None);
    assert_eq!(full_path_of_key("c/b", "c/b"), None);
    assert_eq!(full_path_of_key("c/b \u{26a1} a \u{26a1} b", "c/b"), None);
    assert_eq!(full_path_of_key("c/b \u{26a1} ", "c/b"), Some(String::new()));
    assert_eq!(full_path_of_key("c/b \u{26a1} \u{26a1} x", "c/b"), Some("\u{26a1} x".to_string()));
}

#[test]
fn depth_counts_double_colons() {
    assert_eq!(path_depth(""), 0);
    assert_eq!(path_depth("a"), 0);
    assert_eq!(path_depth("a::b::Foo::bar"), 3);
    assert_eq!(path_depth("a::b::c::Foo::bar"), 4);
    assert_eq!(path_depth("a:::b"), 1);
    assert_eq!(path_depth("a::::b"), 2);
}

#[test]
fn usage_target_is_the_first_target_without_its_sentinel() {
    let target = |targets: &[&str]| {
        usage_target_strings(&Usage {
            targets_for_guesswork: strings(targets),
            resolved_as: String::new(),
            debug_hint: String::new(),
        })
    };
    assert_eq!(target(&[]), Vec::<String>::new());
    assert_eq!(target(&[""]), Vec::<String>::new());
    assert_eq!(target(&["?"]), Vec::<String>::new());
    assert_eq!(target(&["?::a::b", "c"]), strings(&["a", "b"]));
    assert_eq!(target(&["a::?::b"]), strings(&["a", "?", "b"]));
    assert_eq!(target(&["??::b"]), strings(&["??", "b"]));
    assert_eq!(target(&["a::"]), strings(&["a", ""]));
}

#[test]
fn text_helpers() {
    let chars = |text: &str| chars_of(text);
    assert_eq!(chars("a\u{26a1}b"), vec!['a', '\u{26a1}', 'b']);
    assert_eq!(find(&chars("abcabc"), &chars("bc"), 0), Some(1));
    assert_eq!(find(&chars("abcabc"), &chars("bc"), 2), Some(4));
    assert_eq!(find(&chars("abcabc"), &chars("bc"), 5), None);
    assert_eq!(find(&chars("abc"), &chars("abcd"), 0), None);
    assert_eq!(find(&chars("abc"), &chars(""), 3), Some(3));
    assert_eq!(
        split_chars(&chars("a::b::::c"), &chars("::")),
        vec![chars("a"), chars("b"), chars(""), chars("c")]
    );
    assert_eq!(split_chars(&chars(""), &chars("::")), vec![chars("")]);
    assert_eq!(split_chars(&chars("aaa"), &chars("aa")), vec![chars(""), chars("a")]);
    assert_eq!(trim_chars(&chars(" \t a b \u{a0}\u{3000}\n")), chars("a b"));
    assert_eq!(trim_chars(&chars("\u{200b}x")), chars("\u{200b}x"));
    assert_eq!(trim_chars(&chars("   ")), chars(""));
}

#[test]
fn record_reads_back_as_the_same_definition() {
    let def = sample();
    let record = write_record(&def).unwrap();
    assert_eq!(read_record(&record), Some(def.clone()));
    assert_eq!(record[0], 0x98);
    assert_ne!(record, def.path().into_bytes());
    assert_eq!(read_record(&[]), None);
    assert_eq!(read_record(&[0x80]), None);
    assert_eq!(read_record(b"huu"), None);
    let mut longer = record.clone();
    longer.push(0x00);
    assert_eq!(read_record(&longer), None);
}

#[test]
fn row_has_the_documented_layout() {
    let def = AltDefinition {
        official_path: strings(&["m", "f"]),
        symbol_type: SymbolType::TypeAlias,
        derived_from: vec![],
        usages: vec![Usage {
            targets_for_guesswork: strings(&["?::g"]),
            resolved_as: "r".to_string(),
            debug_hint: "h".to_string(),
        }],
        full_range: Range {
            start_byte: 1,
            end_byte: 2,
            start_point: Point { row: 3, column: 4 },
            end_point: Point { row: 5, column: 6 },
        },
        declaration_range: Range {
            start_byte: 7,
            end_byte: 8,
            start_point: Point { row: 9, column: 10 },
            end_point: Point { row: 11, column: 12 },
        },
        definition_range: Range {
            start_byte: 13,
            end_byte: 14,
            start_point: Point { row: 15, column: 16 },
            end_point: Point { row: 17, column: 18 },
        },
    };
    let text = |t: &str| Item::Text(t.to_string());
    let mut expected = vec![
        Item::Number(2),
        text("m"),
        text("f"),
        text("TypeAlias"),
        Item::Number(0),
        Item::Number(1),
        Item::Number(1),
        text("?::g"),
        text("r"),
        text("h"),
    ];
    for n in 1..=18 {
        expected.push(Item::Number(n));
    }
    let row = definition_row(&def);
    assert_eq!(row, expected);
    assert_eq!(row_definition(&row), Some(def));
}

#[test]
fn rows_that_lay_out_no_definition_are_refused() {
    let good = definition_row(&sample());
    assert!(row_definition(&good).is_some());
    let mut short = good.clone();
    short.pop();
    assert_eq!(row_definition(&short), None);
    let mut long = good.clone();
    long.push(Item::Number(0));
    assert_eq!(row_definition(&long), None);
    let mut bad_type = good.clone();
    bad_type[5] = Item::Text("Function".to_string());
    assert_eq!(row_definition(&bad_type), None);
    let mut bad_count = good.clone();
    bad_count[0] = Item::Number(-1);
    assert_eq!(row_definition(&bad_count), None);
    let mut huge_count = good.clone();
    huge_count[0] = Item::Number(1 << 70);
    assert_eq!(row_definition(&huge_count), None);
    let mut negative = good.clone();
    let last = negative.len() - 1;
    negative[last] = Item::Number(-5);
    assert_eq!(row_definition(&negative), None);
    assert_eq!(row_definition(&vec![]), None);
}

#[test]
fn every_symbol_type_survives_a_record() {
    let kinds = [
        SymbolType::StructDeclaration,
        SymbolType::TypeAlias,
        SymbolType::ClassFieldDeclaration,
        SymbolType::ImportDeclaration,
        SymbolType::VariableDefinition,
        SymbolType::FunctionDeclaration,
        SymbolType::CommentDefinition,
        SymbolType::FunctionCall,
        SymbolType::VariableUsage,
        SymbolType::Unknown,
    ];
    for kind in kinds.iter() {
        let mut def = sample();
        def.symbol_type = *kind;
        let record = write_record(&def).unwrap();
        assert_eq!(read_record(&record), Some(def));
    }
}

#[test]
fn patch_action_from_string() {
    assert_eq!(PatchAction::from_string("\u{1f4cd}PARTIAL_EDIT"), Ok(PatchAction::PartialEdit));
    assert_eq!(PatchAction::from_string("\u{1f4cd}FULL_REWRITE"), Ok(PatchAction::FullRewrite));
    assert_eq!(PatchAction::from_string("\u{1f4cd}NEW_FILE"), Ok(PatchAction::NewFile));
    assert_eq!(PatchAction::from_string("\u{1f4cd}OTHER"), Ok(PatchAction::Other));
    assert_eq!(
        PatchAction::from_string("PARTIAL_EDIT"),
        Err("invalid action: PARTIAL_EDIT".to_string())
    );
    assert_eq!(PatchAction::from_string(""), Err("invalid action: ".to_string()));
    assert_eq!(PatchAction::default(), PatchAction::PartialEdit);
    assert_eq!(TicketToApply::default().action, PatchAction::PartialEdit);
}

#[test]
fn well_formed_definitions_are_told_from_others() {
    let good = sample();
    assert!(good.is_well_formed());
    assert!(good.is_of_file("alt_testsuite/cpp_goat_main.cpp"));
    assert!(good.is_of_file("alt_testsuite/cpp_goat_main"));
    assert!(good.is_of_file("alt_testsuite"));
    assert!(good.is_of_file(""));
    assert!(!good.is_of_file("alt_testsuite/cpp_goat_library.h"));
    assert!(!good.is_of_file("alt_testsuite/cpp_goat_main/CosmicJustice/CosmicJustice/more.rs"));
    let mut empty = sample();
    empty.official_path = vec![];
    assert!(!empty.is_well_formed());
    let mut colon = sample();
    colon.official_path[1] = "a::b".to_string();
    assert!(!colon.is_well_formed());
    let mut blank = sample();
    blank.official_path[0] = "a b".to_string();
    assert!(!blank.is_well_formed());
    let mut hollow = sample();
    hollow.official_path[2] = String::new();
    assert!(!hollow.is_well_formed());
    let mut odd_usage = sample();
    odd_usage.usages[0].targets_for_guesswork[0] = "a \u{26a1} b".to_string();
    assert!(!odd_usage.is_well_formed());
    let mut later_target = sample();
    later_target.derived_from[0].targets_for_guesswork[1] = "not read".to_string();
    assert!(later_target.is_well_formed());
    assert!(good.usages[1].is_well_formed());
}

#[test]
fn white_space_is_what_the_standard_library_calls_so() {
    for code in 0u32..=0x10ffff {
        if let Some(c) = char::from_u32(code) {
            assert_eq!(alt_index::text::char_is_whitespace(c), c.is_whitespace(), "U+{:04X}", code);
        }
    }
}

#[test]
fn identifier_characters_are_ascii_letters_digits_and_underscore() {
    for code in 0u32..=0x10ffff {
        if let Some(c) = char::from_u32(code) {
            assert_eq!(
                alt_index::path::identifier_char(c),
                c.is_ascii_alphanumeric() || c == '_',
                "U+{:04X}",
                code
            );
        }
    }
}

#[test]
fn trimming_and_splitting_agree_with_the_standard_library() {
    let samples = [
        "",
        " ",
        "a",
        "  a::b  ",
        "\t\u{a0}x \u{26a1} y\u{2003}\n",
        "::",
        "a::::b:::c",
        ":a:",
        "c/b \u{26a1} a \u{26a1} b",
        " \u{26a1}  \u{26a1} ",
    ];
    for sample in samples.iter() {
        let given = chars_of(sample);
        let trimmed: Vec<char> = sample.trim().chars().collect();
        assert_eq!(trim_chars(&given), trimmed);
        for pattern in ["::", " \u{26a1} ", " ", ":"].iter() {
            let expected: Vec<Vec<char>> =
                sample.split(pattern).map(|piece| piece.chars().collect()).collect();
            assert_eq!(split_chars(&given, &chars_of(pattern)), expected);
            let count = sample.matches(pattern).count();
            assert_eq!(expected.len() - 1, count);
        }
        assert_eq!(path_depth(sample), sample.matches("::").count());
    }
}
