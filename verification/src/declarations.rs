//! From a usage to the declaration that it means, over the symbols of the
//! files that are known: by what the caller resolves to, or by name, from
//! the scope of the usage outwards and from the closest file to the
//! farthest.

use vstd::prelude::*;
use vstd::string::StringExecFns;
use crate::closeness::{FilePathIterator, closest_first, path_views};
use crate::model::{SymbolType, same_texts};
use crate::text::texts;

verus! {

/// What is known of a symbol.
#[derive(Clone, Debug, PartialEq, Eq)]
pub struct SymbolRecord {
    pub guid: String,
    pub name: String,
    pub symbol_type: SymbolType,
    /// The components of the path of the file that the symbol stands in.
    pub file_path: Vec<String>,
    /// The symbol that this one stands in, if it stands in one.
    pub parent_guid: Option<String>,
    /// For a usage: the declaration that it was linked to.
    pub linked_decl_guid: Option<String>,
    /// For the declaration of a function: the type that it returns, where
    /// that type is a known symbol.
    pub return_type_guid: Option<String>,
}

/// A symbol as a mathematical value.
pub struct SymbolView {
    pub guid: Seq<char>,
    pub name: Seq<char>,
    pub symbol_type: SymbolType,
    pub file_path: Seq<Seq<char>>,
    pub parent_guid: Option<Seq<char>>,
    pub linked_decl_guid: Option<Seq<char>>,
    pub return_type_guid: Option<Seq<char>>,
}

/// The view of a text that may be missing.
pub open spec fn text_view(text: Option<String>) -> Option<Seq<char>> {
    match text {
        Some(t) => Some(t@),
        None => None,
    }
}

impl View for SymbolRecord {
    type V = SymbolView;

    open spec fn view(&self) -> SymbolView {
        SymbolView {
            guid: self.guid@,
            name: self.name@,
            symbol_type: self.symbol_type,
            file_path: texts(self.file_path@),
            parent_guid: text_view(self.parent_guid),
            linked_decl_guid: text_view(self.linked_decl_guid),
            return_type_guid: text_view(self.return_type_guid),
        }
    }
}

/// The views of a sequence of symbols.
pub open spec fn symbol_views(symbols: Seq<SymbolRecord>) -> Seq<SymbolView> {
    symbols.map_values(|s: SymbolRecord| s@)
}

/// The symbols of one file.
pub struct FileSymbols {
    pub path: Vec<String>,
    pub symbols: Vec<SymbolRecord>,
}

/// The symbols of a file as a mathematical value.
pub struct FileView {
    pub path: Seq<Seq<char>>,
    pub symbols: Seq<SymbolView>,
}

impl View for FileSymbols {
    type V = FileView;

    open spec fn view(&self) -> FileView {
        FileView { path: texts(self.path@), symbols: symbol_views(self.symbols@) }
    }
}

/// The views of a sequence of files.
pub open spec fn file_views(files: Seq<FileSymbols>) -> Seq<FileView> {
    files.map_values(|f: FileSymbols| f@)
}

/// The first place at or after `from` of a symbol with the guid.
pub open spec fn place_of(symbols: Seq<SymbolView>, guid: Seq<char>, from: int) -> Option<int>
    decreases symbols.len() - from,
{
    if from < 0 || from >= symbols.len() {
        None
    } else if symbols[from].guid == guid {
        Some(from)
    } else {
        place_of(symbols, guid, from + 1)
    }
}

/// The symbol with the guid: the first, should there be several.
pub open spec fn symbol_with(symbols: Seq<SymbolView>, guid: Seq<char>) -> Option<SymbolView> {
    match place_of(symbols, guid, 0) {
        Some(at) => Some(symbols[at]),
        None => None,
    }
}

/// The kind of declaration that a usage of the given kind means.
pub open spec fn declared_as(usage_type: SymbolType) -> Option<SymbolType> {
    match usage_type {
        SymbolType::FunctionCall => Some(SymbolType::FunctionDeclaration),
        SymbolType::VariableUsage => Some(SymbolType::ClassFieldDeclaration),
        _ => None,
    }
}

/// The guid of the symbol that a symbol stands in, or the empty text.
pub open spec fn parent_text(symbol: SymbolView) -> Seq<char> {
    match symbol.parent_guid {
        Some(parent) => parent,
        None => Seq::empty(),
    }
}

/// The symbol whose members a caller gives access to: for a call, what
/// the called function returns; for the usage of a variable, what the
/// usage was linked to.
pub open spec fn receiver_of(symbols: Seq<SymbolView>, caller: SymbolView) -> Option<SymbolView> {
    match caller.symbol_type {
        SymbolType::FunctionCall => match caller.linked_decl_guid {
            Some(linked) => match symbol_with(symbols, linked) {
                Some(declaration) => match declaration.return_type_guid {
                    Some(returned) => symbol_with(symbols, returned),
                    None => None,
                },
                None => None,
            },
            None => None,
        },
        SymbolType::VariableUsage => match caller.linked_decl_guid {
            Some(linked) => symbol_with(symbols, linked),
            None => None,
        },
        _ => None,
    }
}

/// The symbol that a symbol stands in.
pub open spec fn parent_of(symbols: Seq<SymbolView>, symbol: SymbolView) -> Option<SymbolView> {
    match symbol.parent_guid {
        Some(parent) => symbol_with(symbols, parent),
        None => None,
    }
}

/// Whether a symbol is the declaration of the given kind and name in the
/// given parent.
pub open spec fn is_member(
    symbol: SymbolView,
    wanted: SymbolType,
    parent: Seq<char>,
    name: Seq<char>,
) -> bool {
    symbol.symbol_type == wanted && parent_text(symbol) == parent && symbol.name == name
}

/// The first place at or after `from` of such a declaration.
pub open spec fn member_from(
    symbols: Seq<SymbolView>,
    wanted: SymbolType,
    parent: Seq<char>,
    name: Seq<char>,
    from: int,
) -> Option<int>
    decreases symbols.len() - from,
{
    if from < 0 || from >= symbols.len() {
        None
    } else if is_member(symbols[from], wanted, parent, name) {
        Some(from)
    } else {
        member_from(symbols, wanted, parent, name, from + 1)
    }
}

/// The guid of the first such declaration.
pub open spec fn member_guid(
    symbols: Seq<SymbolView>,
    wanted: SymbolType,
    parent: Seq<char>,
    name: Seq<char>,
) -> Option<Seq<char>> {
    match member_from(symbols, wanted, parent, name, 0) {
        Some(at) => Some(symbols[at].guid),
        None => None,
    }
}

/// The declaration that a usage means, found through its caller: the
/// member of the usage's name in the symbol that the caller's receiver
/// stands in.
pub open spec fn decl_by_caller(
    symbol: SymbolView,
    caller_guid: Seq<char>,
    symbols: Seq<SymbolView>,
) -> Option<Seq<char>> {
    match declared_as(symbol.symbol_type) {
        Some(wanted) => match symbol_with(symbols, caller_guid) {
            Some(caller) => match receiver_of(symbols, caller) {
                Some(receiver) => match parent_of(symbols, receiver) {
                    Some(parent) => member_guid(symbols, wanted, parent.guid, symbol.name),
                    None => None,
                },
                None => None,
            },
            None => None,
        },
        None => None,
    }
}

/// The declaration of a name seen from a scope of one file: the member of
/// that name in the scope, or in the nearest scope round it that has one,
/// or at the top of the file. The search goes up through at most `steps`
/// scopes that are known.
pub open spec fn decl_in_scopes(
    file_symbols: Seq<SymbolView>,
    symbols: Seq<SymbolView>,
    wanted: SymbolType,
    name: Seq<char>,
    scope: Seq<char>,
    steps: nat,
) -> Option<Seq<char>>
    decreases steps,
{
    match member_guid(file_symbols, wanted, scope, name) {
        Some(guid) => Some(guid),
        None => if scope.len() == 0 {
            None
        } else {
            match symbol_with(symbols, scope) {
                Some(around) => if steps == 0 {
                    None
                } else {
                    decl_in_scopes(
                        file_symbols,
                        symbols,
                        wanted,
                        name,
                        parent_text(around),
                        (steps - 1) as nat,
                    )
                },
                None => member_guid(file_symbols, wanted, Seq::empty(), name),
            }
        },
    }
}

/// The declaration of a name seen from a scope of one file; the search
/// goes up through as many scopes as there are symbols.
pub open spec fn decl_in_file(
    file_symbols: Seq<SymbolView>,
    symbols: Seq<SymbolView>,
    wanted: SymbolType,
    name: Seq<char>,
    scope: Seq<char>,
) -> Option<Seq<char>> {
    decl_in_scopes(file_symbols, symbols, wanted, name, scope, symbols.len())
}

/// The first place at or after `from` of a file with the path.
pub open spec fn file_place(files: Seq<FileView>, path: Seq<Seq<char>>, from: int) -> Option<int>
    decreases files.len() - from,
{
    if from < 0 || from >= files.len() {
        None
    } else if files[from].path == path {
        Some(from)
    } else {
        file_place(files, path, from + 1)
    }
}

/// The kind of declaration that is searched by name.
pub open spec fn named_as(is_function: bool) -> SymbolType {
    if is_function {
        SymbolType::FunctionDeclaration
    } else {
        SymbolType::VariableDefinition
    }
}

/// The paths of the files.
pub open spec fn paths_of(files: Seq<FileView>) -> Seq<Seq<Seq<char>>> {
    files.map_values(|f: FileView| f.path)
}

/// The declaration of the symbol's name in the first of the files, from
/// place `from` of the order on, that has one. In the symbol's own file
/// the search starts in the symbol's scope, elsewhere at the top.
pub open spec fn decl_in_files(
    symbol: SymbolView,
    wanted: SymbolType,
    order: Seq<Seq<Seq<char>>>,
    files: Seq<FileView>,
    symbols: Seq<SymbolView>,
    from: int,
) -> Option<Seq<char>>
    decreases order.len() - from,
{
    if from < 0 || from >= order.len() {
        None
    } else {
        let scope = if order[from] == symbol.file_path {
            parent_text(symbol)
        } else {
            Seq::empty()
        };
        let here = match file_place(files, order[from], 0) {
            Some(at) => decl_in_file(files[at].symbols, symbols, wanted, symbol.name, scope),
            None => None,
        };
        match here {
            Some(guid) => Some(guid),
            None => decl_in_files(symbol, wanted, order, files, symbols, from + 1),
        }
    }
}

/// The declaration that a usage means, found by its name: in the files
/// from the closest to the usage's own to the farthest.
pub open spec fn decl_by_name(
    symbol: SymbolView,
    is_function: bool,
    files: Seq<FileView>,
    symbols: Seq<SymbolView>,
) -> Option<Seq<char>> {
    decl_in_files(
        symbol,
        named_as(is_function),
        closest_first(symbol.file_path, paths_of(files)),
        files,
        symbols,
        0,
    )
}

/// Finds the symbol with the guid.
pub fn find_symbol(symbols: &Vec<SymbolRecord>, guid: &String) -> (found: Option<usize>)
    ensures
        match found {
            Some(at) => place_of(symbol_views(symbols@), guid@, 0) == Some(at as int) && at
                < symbols.len(),
            None => place_of(symbol_views(symbols@), guid@, 0) is None,
        },
{
    let mut i: usize = 0;
    while i < symbols.len()
        invariant
            i <= symbols.len(),
            place_of(symbol_views(symbols@), guid@, 0) == place_of(
                symbol_views(symbols@),
                guid@,
                i as int,
            ),
        decreases symbols.len() - i,
    {
        if symbols[i].guid == *guid {
            return Some(i);
        }
        i += 1;
    }
    None
}

/// Finds the declaration of the given kind and name in the given parent.
pub fn find_member(
    symbols: &Vec<SymbolRecord>,
    wanted: SymbolType,
    parent: &String,
    name: &String,
) -> (found: Option<String>)
    ensures
        text_view(found) == member_guid(symbol_views(symbols@), wanted, parent@, name@),
{
    let mut i: usize = 0;
    while i < symbols.len()
        invariant
            i <= symbols.len(),
            member_from(symbol_views(symbols@), wanted, parent@, name@, 0) == member_from(
                symbol_views(symbols@),
                wanted,
                parent@,
                name@,
                i as int,
            ),
        decreases symbols.len() - i,
    {
        let in_parent = match &symbols[i].parent_guid {
            Some(p) => *p == *parent,
            None => parent.as_str().unicode_len() == 0,
        };
        proof {
            let s = symbol_views(symbols@)[i as int];
            assert(s == symbols@[i as int]@);
            assert(in_parent == (parent_text(s) == parent@)) by {
                if symbols@[i as int].parent_guid is None {
                    assert(parent_text(s) =~= Seq::<char>::empty());
                    if parent@.len() == 0 {
                        assert(parent@ =~= Seq::<char>::empty());
                    }
                }
            }
        }
        if symbols[i].symbol_type == wanted && in_parent && symbols[i].name == *name {
            return Some(symbols[i].guid.clone());
        }
        i += 1;
    }
    None
}

/// Finds the declaration that a usage means through its caller.
pub fn find_decl_by_caller_guid(
    symbol: &SymbolRecord,
    caller_guid: &str,
    guid_by_symbols: &Vec<SymbolRecord>,
) -> (found: Option<String>)
    ensures
        text_view(found) == decl_by_caller(symbol@, caller_guid@, symbol_views(guid_by_symbols@)),
{
    let ghost all = symbol_views(guid_by_symbols@);
    let search_symbol_type = match symbol.symbol_type {
        SymbolType::FunctionCall => SymbolType::FunctionDeclaration,
        SymbolType::VariableUsage => SymbolType::ClassFieldDeclaration,
        _ => {
            return None;
        },
    };
    let caller = match find_symbol(guid_by_symbols, &String::from_str(caller_guid)) {
        Some(at) => &guid_by_symbols[at],
        None => {
            return None;
        },
    };
    proof {
        assert(symbol_with(all, caller_guid@) == Some(caller@));
    }
    let linked = match caller.symbol_type {
        SymbolType::FunctionCall => match &caller.linked_decl_guid {
            Some(linked) => match find_symbol(guid_by_symbols, linked) {
                Some(at) => match &guid_by_symbols[at].return_type_guid {
                    Some(returned) => {
                        proof {
                            assert(all[at as int] == guid_by_symbols@[at as int]@);
                        }
                        find_symbol(guid_by_symbols, returned)
                    },
                    None => {
                        proof {
                            assert(all[at as int] == guid_by_symbols@[at as int]@);
                        }
                        None
                    },
                },
                None => None,
            },
            None => None,
        },
        SymbolType::VariableUsage => match &caller.linked_decl_guid {
            Some(linked) => find_symbol(guid_by_symbols, linked),
            None => None,
        },
        _ => None,
    };
    let receiver = match linked {
        Some(at) => &guid_by_symbols[at],
        None => {
            return None;
        },
    };
    proof {
        assert(receiver_of(all, caller@) == Some(receiver@));
    }
    let parent = match &receiver.parent_guid {
        Some(parent_guid) => match find_symbol(guid_by_symbols, parent_guid) {
            Some(at) => &guid_by_symbols[at],
            None => {
                return None;
            },
        },
        None => {
            return None;
        },
    };
    proof {
        assert(parent_of(all, receiver@) == Some(parent@));
    }
    find_member(guid_by_symbols, search_symbol_type, &parent.guid, &symbol.name)
}

/// Finds the declaration of a name seen from a scope of one file.
pub fn find_decl_by_name_for_single_path(
    name: &str,
    parent_guid: &str,
    search_symbol_type: &SymbolType,
    symbols: &Vec<SymbolRecord>,
    guid_by_symbols: &Vec<SymbolRecord>,
) -> (found: Option<String>)
    ensures
        text_view(found) == decl_in_file(
            symbol_views(symbols@),
            symbol_views(guid_by_symbols@),
            *search_symbol_type,
            name@,
            parent_guid@,
        ),
{
    let ghost here = symbol_views(symbols@);
    let ghost all = symbol_views(guid_by_symbols@);
    let wanted_name = String::from_str(name);
    let mut current_parent_guid = String::from_str(parent_guid);
    let mut left: usize = guid_by_symbols.len();
    loop
        invariant
            here == symbol_views(symbols@),
            all == symbol_views(guid_by_symbols@),
            wanted_name@ == name@,
            left <= guid_by_symbols.len(),
            decl_in_file(here, all, *search_symbol_type, name@, parent_guid@) == decl_in_scopes(
                here,
                all,
                *search_symbol_type,
                name@,
                current_parent_guid@,
                left as nat,
            ),
        decreases left,
    {
        match find_member(symbols, *search_symbol_type, &current_parent_guid, &wanted_name) {
            Some(guid) => {
                return Some(guid);
            },
            None => {},
        }
        if current_parent_guid.as_str().unicode_len() == 0 {
            return None;
        }
        match find_symbol(guid_by_symbols, &current_parent_guid) {
            Some(at) => {
                if left == 0 {
                    return None;
                }
                proof {
                    assert(all[at as int] == guid_by_symbols@[at as int]@);
                }
                current_parent_guid = match &guid_by_symbols[at].parent_guid {
                    Some(parent) => parent.clone(),
                    None => String::new(),
                };
                left -= 1;
            },
            None => {
                let top = String::new();
                return find_member(symbols, *search_symbol_type, &top, &wanted_name);
            },
        }
    }
}

/// Finds the file with the path.
pub fn find_file(files: &Vec<FileSymbols>, path: &Vec<String>) -> (found: Option<usize>)
    ensures
        match found {
            Some(at) => file_place(file_views(files@), texts(path@), 0) == Some(at as int) && at
                < files.len(),
            None => file_place(file_views(files@), texts(path@), 0) is None,
        },
{
    let mut i: usize = 0;
    while i < files.len()
        invariant
            i <= files.len(),
            file_place(file_views(files@), texts(path@), 0) == file_place(
                file_views(files@),
                texts(path@),
                i as int,
            ),
        decreases files.len() - i,
    {
        proof {
            assert(file_views(files@)[i as int] == files@[i as int]@);
        }
        if same_texts(&files[i].path, path) {
            return Some(i);
        }
        i += 1;
    }
    None
}

/// Finds the declaration that a usage means by its name.
pub fn find_decl_by_name(
    symbol: &SymbolRecord,
    is_function: bool,
    path_by_symbols: &Vec<FileSymbols>,
    guid_by_symbols: &Vec<SymbolRecord>,
) -> (found: Option<String>)
    ensures
        text_view(found) == decl_by_name(
            symbol@,
            is_function,
            file_views(path_by_symbols@),
            symbol_views(guid_by_symbols@),
        ),
{
    let ghost files = file_views(path_by_symbols@);
    let ghost all = symbol_views(guid_by_symbols@);
    let search_symbol_type = if is_function {
        SymbolType::FunctionDeclaration
    } else {
        SymbolType::VariableDefinition
    };
    let mut paths: Vec<Vec<String>> = Vec::new();
    let mut i: usize = 0;
    while i < path_by_symbols.len()
        invariant
            i <= path_by_symbols.len(),
            files == file_views(path_by_symbols@),
            path_views(paths@) == paths_of(files).take(i as int),
        decreases path_by_symbols.len() - i,
    {
        let ghost so_far = path_views(paths@);
        paths.push(crate::closeness::copy_path(&path_by_symbols[i].path));
        proof {
            assert(files[i as int] == path_by_symbols@[i as int]@);
            assert(path_views(paths@) =~= so_far.push(files[i as int].path));
            assert(path_views(paths@) =~= paths_of(files).take(i + 1));
        }
        i += 1;
    }
    proof {
        assert(paths_of(files).take(path_by_symbols.len() as int) =~= paths_of(files));
    }
    let start = crate::closeness::copy_path(&symbol.file_path);
    let walk = FilePathIterator::new(start, paths);
    let ghost order = path_views(walk.paths@);
    let top = String::new();
    let mut k: usize = 0;
    while k < walk.paths.len()
        invariant
            k <= walk.paths.len(),
            files == file_views(path_by_symbols@),
            all == symbol_views(guid_by_symbols@),
            order == path_views(walk.paths@),
            order == closest_first(symbol@.file_path, paths_of(files)),
            search_symbol_type == named_as(is_function),
            top@ == Seq::<char>::empty(),
            decl_by_name(symbol@, is_function, files, all) == decl_in_files(
                symbol@,
                search_symbol_type,
                order,
                files,
                all,
                k as int,
            ),
        decreases walk.paths.len() - k,
    {
        let file = &walk.paths[k];
        proof {
            assert(order[k as int] == texts(file@));
        }
        let own = same_texts(file, &symbol.file_path);
        match find_file(path_by_symbols, file) {
            Some(at) => {
                proof {
                    assert(files[at as int] == path_by_symbols@[at as int]@);
                }
                let scope: &String = if own {
                    match &symbol.parent_guid {
                        Some(parent) => parent,
                        None => &top,
                    }
                } else {
                    &top
                };
                match find_decl_by_name_for_single_path(
                    symbol.name.as_str(),
                    scope.as_str(),
                    &search_symbol_type,
                    &path_by_symbols[at].symbols,
                    guid_by_symbols,
                ) {
                    Some(guid) => {
                        return Some(guid);
                    },
                    None => {},
                }
            },
            None => {},
        }
        k += 1;
    }
    None
}

} // verus!
