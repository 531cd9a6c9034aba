use alt_index::{
    alt_index_init, connect_usages, definitions, doc_add, doc_remove, doc_symbols, dump_database,
    usages, AltDefinition, AltIndex, IndexError, Point, Range, SymbolType, Usage,
};

fn fresh_index() -> AltIndex {
    let db = sled::Config::new().temporary(true).open().unwrap();
    match alt_index_init(db) {
        Ok(index) => index,
        Err(_) => panic!("the store could not be emptied"),
    }
}

fn range(start: usize, end: usize) -> Range {
    Range {
        start_byte: start,
        end_byte: end,
        start_point: Point { row: start / 10, column: start % 10 },
        end_point: Point { row: end / 10, column: end % 10 },
    }
}

fn path(text: &str) -> Vec<String> {
    text.split("::").map(|part| part.to_string()).collect()
}

fn usage(target: &str) -> Usage {
    Usage {
        targets_for_guesswork: vec![target.to_string()],
        resolved_as: String::new(),
        debug_hint: "up".to_string(),
    }
}

fn definition(text: &str, symbol_type: SymbolType, uses: Vec<Usage>) -> AltDefinition {
    AltDefinition {
        official_path: path(text),
        symbol_type,
        derived_from: vec![],
        usages: uses,
        full_range: range(10, 90),
        declaration_range: range(10, 20),
        definition_range: range(20, 90),
    }
}

fn found(result: Result<Vec<AltDefinition>, IndexError>) -> Vec<AltDefinition> {
    match result {
        Ok(found) => found,
        Err(_) => panic!("the store failed"),
    }
}

fn keys(index: &AltIndex) -> Vec<String> {
    index
        .sleddb
        .iter()
        .map(|entry| String::from_utf8(entry.unwrap().0.to_vec()).unwrap())
        .collect()
}

fn goat_library() -> Vec<AltDefinition> {
    vec![
        definition("alt_testsuite::cpp_goat_library::Animal", SymbolType::StructDeclaration, vec![]),
        definition(
            "alt_testsuite::cpp_goat_library::Animal::age",
            SymbolType::ClassFieldDeclaration,
            vec![],
        ),
        definition(
            "alt_testsuite::cpp_goat_library::Animal::Animal",
            SymbolType::FunctionDeclaration,
            vec![usage("?::Animal::age")],
        ),
        definition(
            "alt_testsuite::cpp_goat_library::Animal::birthday",
            SymbolType::FunctionDeclaration,
            vec![usage("?::Animal::age"), usage("?::Animal::age")],
        ),
        definition(
            "alt_testsuite::cpp_goat_library::Goat",
            SymbolType::StructDeclaration,
            vec![],
        ),
        definition(
            "alt_testsuite::cpp_goat_library::Goat::Goat",
            SymbolType::FunctionDeclaration,
            vec![usage("?::Animal::age"), usage("?::Goat::weight")],
        ),
    ]
}

fn goat_main() -> Vec<AltDefinition> {
    vec![
        definition(
            "alt_testsuite::cpp_goat_main::CosmicJustice",
            SymbolType::StructDeclaration,
            vec![],
        ),
        definition(
            "alt_testsuite::cpp_goat_main::CosmicJustice::CosmicJustice",
            SymbolType::FunctionDeclaration,
            vec![usage("?::CosmicJustice::balance")],
        ),
        definition(
            "alt_testsuite::cpp_goat_main::CosmicGoat::say_hi",
            SymbolType::FunctionDeclaration,
            vec![usage("?::Animal::age")],
        ),
        definition(
            "alt_testsuite::cpp_goat_main::main::goat1",
            SymbolType::VariableDefinition,
            vec![],
        ),
    ]
}

#[test]
fn test_alt_db() {
    let mut index = fresh_index();
    assert!(doc_add(&mut index, &goat_library()).is_ok());
    assert!(doc_add(&mut index, &goat_main()).is_ok());
    connect_usages(&mut index);
    assert!(dump_database(&index).is_ok());

    let goat_def = found(definitions(&index, "Goat::Goat"));
    assert!(goat_def.len() == 1);

    let mut library_only = fresh_index();
    assert!(doc_add(&mut library_only, &goat_library()).is_ok());
    let animalage_usage = found(usages(&library_only, "Animal::age"));
    assert!(animalage_usage.len() == 3);

    assert!(doc_remove(&mut index, "alt_testsuite/cpp_goat_library.h").is_ok());
    assert!(doc_remove(&mut index, "alt_testsuite/cpp_goat_main.cpp").is_ok());
    assert!(keys(&index).is_empty());
}

#[test]
fn single_file_definition_lookup() {
    let mut index = fresh_index();
    let defs = goat_main();
    assert!(doc_add(&mut index, &defs).is_ok());
    let hits = found(definitions(&index, "CosmicJustice::CosmicJustice"));
    assert_eq!(hits.len(), 1);
    assert_eq!(hits[0], defs[1]);
    assert!(hits[0].path().ends_with("::CosmicJustice::CosmicJustice"));
}

#[test]
fn cross_file_usage_counting() {
    let mut index = fresh_index();
    assert!(doc_add(&mut index, &goat_library()).is_ok());
    let before = found(usages(&index, "Animal::age"));
    assert_eq!(before.len(), 3);
    let users: Vec<String> = before.iter().map(|d| d.name()).collect();
    assert_eq!(users, vec!["Animal".to_string(), "birthday".to_string(), "Goat".to_string()]);
    assert!(doc_add(&mut index, &goat_main()).is_ok());
    let after = found(usages(&index, "Animal::age"));
    assert!(after.len() > before.len());
    assert_eq!(after.len(), 4);
    assert_eq!(found(usages(&index, "age")).len(), 4);
    assert_eq!(found(usages(&index, "weight")).len(), 1);
    assert_eq!(found(usages(&index, "nothing")).len(), 0);
}

#[test]
fn short_path_ranking() {
    let mut index = fresh_index();
    let defs = vec![
        definition("a::b::Foo::bar", SymbolType::FunctionDeclaration, vec![]),
        definition("a::b::c::Foo::bar", SymbolType::FunctionDeclaration, vec![]),
    ];
    assert!(doc_add(&mut index, &defs).is_ok());
    let hits = found(definitions(&index, "Foo::bar"));
    assert_eq!(hits, vec![defs[0].clone()]);
    let deep = found(definitions(&index, "c::Foo::bar"));
    assert_eq!(deep, vec![defs[1].clone()]);
}

#[test]
fn ties_at_one_depth_are_all_returned_in_store_order() {
    let mut index = fresh_index();
    let defs = vec![
        definition("x::z::f", SymbolType::FunctionDeclaration, vec![]),
        definition("x::y::f", SymbolType::FunctionDeclaration, vec![]),
        definition("x::y::w::f", SymbolType::FunctionDeclaration, vec![]),
    ];
    assert!(doc_add(&mut index, &defs).is_ok());
    let hits = found(definitions(&index, "f"));
    assert_eq!(hits, vec![defs[1].clone(), defs[0].clone()]);
    for hit in hits.iter() {
        assert_eq!(hit.official_path.len(), 3);
    }
}

#[test]
fn remove_round_trip() {
    let mut index = fresh_index();
    assert!(doc_add(&mut index, &goat_library()).is_ok());
    let before = keys(&index);
    let size_before = match dump_database(&index) {
        Ok(dump) => dump.records,
        Err(_) => panic!("the store failed"),
    };
    assert!(doc_add(&mut index, &goat_main()).is_ok());
    let size_with_main = match dump_database(&index) {
        Ok(dump) => dump.records,
        Err(_) => panic!("the store failed"),
    };
    assert_eq!(size_with_main, size_before + 4 + (3 + 4 + 4 + 4) + (2 + 2));
    assert!(doc_remove(&mut index, "alt_testsuite/cpp_goat_main.cpp").is_ok());
    let after = keys(&index);
    assert_eq!(after, before);
    for key in after.iter() {
        assert!(!key.contains("alt_testsuite::cpp_goat_main"));
    }
    let size_after = match dump_database(&index) {
        Ok(dump) => dump.records,
        Err(_) => panic!("the store failed"),
    };
    assert_eq!(size_after, size_before);
}

#[test]
fn removed_file_leaves_no_key() {
    let mut index = fresh_index();
    assert!(doc_add(&mut index, &goat_library()).is_ok());
    assert!(doc_add(&mut index, &goat_main()).is_ok());
    assert!(doc_remove(&mut index, "alt_testsuite\\cpp_goat_library.h").is_ok());
    for key in keys(&index).iter() {
        assert!(!key.contains("alt_testsuite::cpp_goat_library"));
    }
    assert_eq!(found(doc_symbols(&index, "alt_testsuite/cpp_goat_library.h")).len(), 0);
    assert_eq!(found(doc_symbols(&index, "alt_testsuite/cpp_goat_main.cpp")).len(), 4);
    assert_eq!(found(definitions(&index, "Goat::Goat")).len(), 0);
}

#[test]
fn malformed_key_tolerance() {
    let mut index = fresh_index();
    let defs = vec![
        definition("a", SymbolType::FunctionDeclaration, vec![usage("x")]),
        definition("b", SymbolType::FunctionDeclaration, vec![]),
    ];
    assert!(doc_add(&mut index, &defs).is_ok());
    index.sleddb.insert("u/x \u{26a1} a \u{26a1} b".as_bytes(), b"huu".to_vec()).unwrap();
    index.sleddb.insert("u/x".as_bytes(), b"huu".to_vec()).unwrap();
    index.sleddb.insert("u/xy \u{26a1} b".as_bytes(), b"huu".to_vec()).unwrap();
    index.sleddb.insert(vec![b'u', b'/', b'x', 0xff], b"huu".to_vec()).unwrap();
    let hits = found(usages(&index, "x"));
    assert_eq!(hits, vec![defs[0].clone()]);
}

#[test]
fn key_with_blanks_round_the_full_path_is_read_trimmed() {
    let mut index = fresh_index();
    let defs = vec![definition("b", SymbolType::FunctionDeclaration, vec![])];
    assert!(doc_add(&mut index, &defs).is_ok());
    index.sleddb.insert("u/q \u{26a1}  b\t".as_bytes(), b"huu".to_vec()).unwrap();
    assert_eq!(found(usages(&index, "q")), defs);
}

#[test]
fn unreadable_record_is_passed_over() {
    let mut index = fresh_index();
    let defs = vec![
        definition("f::a", SymbolType::FunctionDeclaration, vec![]),
        definition("f::b", SymbolType::FunctionDeclaration, vec![]),
    ];
    assert!(doc_add(&mut index, &defs).is_ok());
    index.sleddb.insert("d/f::a".as_bytes(), vec![0x01, 0x02]).unwrap();
    assert_eq!(found(doc_symbols(&index, "f.rs")), vec![defs[1].clone()]);
    assert_eq!(found(definitions(&index, "a")).len(), 0);
    let dump = match dump_database(&index) {
        Ok(dump) => dump,
        Err(_) => panic!("the store failed"),
    };
    assert!(dump.lines.contains(&"Failed to deserialize value at d/f::a".to_string()));
}

#[test]
fn empty_parse_writes_no_key() {
    let mut index = fresh_index();
    assert!(doc_add(&mut index, &vec![]).is_ok());
    assert!(keys(&index).is_empty());
    assert!(doc_add(&mut index, &goat_main()).is_ok());
    let before = keys(&index);
    assert!(doc_add(&mut index, &vec![]).is_ok());
    assert_eq!(keys(&index), before);
}

#[test]
fn usage_without_targets_has_no_key() {
    let mut index = fresh_index();
    let lonely = Usage {
        targets_for_guesswork: vec![],
        resolved_as: String::new(),
        debug_hint: "up".to_string(),
    };
    let defs = vec![definition("m::f", SymbolType::FunctionDeclaration, vec![lonely])];
    assert!(doc_add(&mut index, &defs).is_ok());
    assert_eq!(
        keys(&index),
        vec![
            "c/f \u{26a1} m::f".to_string(),
            "c/m::f \u{26a1} m::f".to_string(),
            "d/m::f".to_string(),
        ]
    );
}

#[test]
fn usage_of_the_sentinel_alone_has_no_key() {
    let mut index = fresh_index();
    let defs = vec![definition("m::f", SymbolType::FunctionDeclaration, vec![usage("?")])];
    assert!(doc_add(&mut index, &defs).is_ok());
    for key in keys(&index).iter() {
        assert!(!key.starts_with("u/"));
    }
}

#[test]
fn only_the_first_target_is_indexed_and_its_sentinel_is_stripped() {
    let mut index = fresh_index();
    let guess = Usage {
        targets_for_guesswork: vec!["?::Base::f".to_string(), "?::f".to_string(), "g".to_string()],
        resolved_as: String::new(),
        debug_hint: "call".to_string(),
    };
    let defs = vec![definition("m::caller", SymbolType::FunctionDeclaration, vec![guess])];
    assert!(doc_add(&mut index, &defs).is_ok());
    let usage_keys: Vec<String> =
        keys(&index).into_iter().filter(|key| key.starts_with("u/")).collect();
    assert_eq!(
        usage_keys,
        vec![
            "u/Base::f \u{26a1} m::caller".to_string(),
            "u/f \u{26a1} m::caller".to_string(),
        ]
    );
    assert_eq!(found(usages(&index, "g")).len(), 0);
    assert_eq!(found(usages(&index, "?::Base::f")).len(), 0);
}

#[test]
fn full_path_finds_exactly_its_definition() {
    let mut index = fresh_index();
    let library = goat_library();
    let main = goat_main();
    assert!(doc_add(&mut index, &library).is_ok());
    assert!(doc_add(&mut index, &main).is_ok());
    for wanted in library.iter().chain(main.iter()) {
        let hits = found(definitions(&index, &wanted.path()));
        assert_eq!(hits, vec![wanted.clone()]);
    }
}

#[test]
fn definitions_twice_gives_equal_lists() {
    let mut index = fresh_index();
    assert!(doc_add(&mut index, &goat_library()).is_ok());
    let first = found(definitions(&index, "Goat"));
    let second = found(definitions(&index, "Goat"));
    assert_eq!(first, second);
    assert_eq!(first.len(), 1);
}

#[test]
fn prefix_of_a_short_path_is_no_match() {
    let mut index = fresh_index();
    let defs = vec![
        definition("m::Foobar", SymbolType::StructDeclaration, vec![]),
        definition("m::n::Foo", SymbolType::StructDeclaration, vec![]),
    ];
    assert!(doc_add(&mut index, &defs).is_ok());
    assert_eq!(found(definitions(&index, "Foo")), vec![defs[1].clone()]);
    assert_eq!(found(definitions(&index, "Foob")).len(), 0);
}

#[test]
fn each_definition_has_one_suffix_key_for_each_component() {
    let mut index = fresh_index();
    let defs = goat_main();
    assert!(doc_add(&mut index, &defs).is_ok());
    let all = keys(&index);
    for def in defs.iter() {
        let ending = format!(" \u{26a1} {}", def.path());
        let count = all.iter().filter(|key| key.starts_with("c/") && key.ends_with(&ending)).count();
        assert_eq!(count, def.official_path.len());
    }
}

#[test]
fn dump_shows_records_and_index_keys() {
    let mut index = fresh_index();
    let defs = vec![definition("m::f", SymbolType::FunctionDeclaration, vec![usage("?::g")])];
    assert!(doc_add(&mut index, &defs).is_ok());
    index.sleddb.insert("other".as_bytes(), b"x".to_vec()).unwrap();
    let dump = match dump_database(&index) {
        Ok(dump) => dump,
        Err(_) => panic!("the store failed"),
    };
    assert_eq!(dump.records, 5);
    assert_eq!(
        dump.lines,
        vec![
            "c/f \u{26a1} m::f".to_string(),
            "c/m::f \u{26a1} m::f".to_string(),
            "d/m::f\nAltDefinition { m::f, usages: Link{ up ?::g, unresolved } }".to_string(),
            "u/g \u{26a1} m::f".to_string(),
        ]
    );
}

#[test]
fn init_empties_the_store() {
    let db = sled::Config::new().temporary(true).open().unwrap();
    db.insert("d/left::over".as_bytes(), b"x".to_vec()).unwrap();
    let index = match alt_index_init(db) {
        Ok(index) => index,
        Err(_) => panic!("the store could not be emptied"),
    };
    assert!(keys(&index).is_empty());
}

#[test]
fn removing_a_file_takes_those_that_share_its_prefix_text() {
    let mut index = fresh_index();
    let defs = vec![
        definition("src::foo::f", SymbolType::FunctionDeclaration, vec![]),
        definition("src::foobar::g", SymbolType::FunctionDeclaration, vec![]),
        definition("src::other::h", SymbolType::FunctionDeclaration, vec![]),
    ];
    assert!(doc_add(&mut index, &defs).is_ok());
    assert!(doc_remove(&mut index, "src/foo.rs").is_ok());
    assert_eq!(found(doc_symbols(&index, "src")), vec![defs[2].clone()]);
}
