//! The record of a definition: how a definition is laid out as a flat row
//! of texts and numbers, which is stored as one CBOR array.
//!
//! The row holds, in this order: the path (a count, then the components),
//! the name of the symbol type, what the definition derives from and what
//! it uses (each a count, then the usages), and the three ranges. A usage
//! is its targets (a count, then the targets), what it was resolved as and
//! its hint. A range is six numbers: the two bytes, the row and column of
//! its start, the row and column of its end.

use vstd::prelude::*;
use vstd::string::StringExecFns;
use crate::model::{
    AltDefinition,
    AltDefinitionView,
    Point,
    Range,
    SymbolType,
    Usage,
    UsageView,
    usage_views,
};
use crate::text::texts;

verus! {

/// One entry of a record's row.
#[derive(Clone, Debug, PartialEq, Eq)]
pub enum Item {
    Text(String),
    Number(i128),
}

/// An entry of a row as a mathematical value.
pub enum ItemView {
    Text(Seq<char>),
    Number(int),
}

impl View for Item {
    type V = ItemView;

    open spec fn view(&self) -> ItemView {
        match self {
            Item::Text(text) => ItemView::Text(text@),
            Item::Number(number) => ItemView::Number(*number as int),
        }
    }
}

/// The views of a row.
pub open spec fn item_views(items: Seq<Item>) -> Seq<ItemView> {
    items.map_values(|item: Item| item@)
}

/// The view of a row that may be missing.
pub open spec fn row_view(items: Option<Vec<Item>>) -> Option<Seq<ItemView>> {
    match items {
        Some(row) => Some(item_views(row@)),
        None => None,
    }
}

/// The view of bytes that may be missing.
pub open spec fn bytes_view(bytes: Option<Vec<u8>>) -> Option<Seq<u8>> {
    match bytes {
        Some(b) => Some(b@),
        None => None,
    }
}

/// The CBOR form of the array of these items, or `None` where the encoder
/// refuses them.
pub uninterp spec fn cbor_array_bytes(items: Seq<ItemView>) -> Option<Seq<u8>>;

/// The items of the CBOR array that the bytes are the form of, or `None`
/// where the bytes are not the form of one array of texts and integers.
pub uninterp spec fn cbor_array_items(bytes: Seq<u8>) -> Option<Seq<ItemView>>;

/// `serde_cbor::to_vec` on the `serde_cbor::Value` that is the array of
/// these items, a text for a text and an integer for a number: the bytes
/// that the encoder gives for that array.
#[verifier::external_body]
pub(crate) fn items_to_cbor(items: &Vec<Item>) -> (bytes: Option<Vec<u8>>)
    ensures
        bytes_view(bytes) == cbor_array_bytes(item_views(items@)),
{
    serde_cbor::to_vec(
        &serde_cbor::Value::Array(
            items.iter().map(
                |item|
                    match item {
                        Item::Text(text) => serde_cbor::Value::Text(text.clone()),
                        Item::Number(number) => serde_cbor::Value::Integer(*number),
                    },
            ).collect(),
        ),
    ).ok()
}

/// `serde_cbor::from_slice` to a `serde_cbor::Value`: the items of the
/// array that the decoder reads from the bytes, where it reads one array
/// and nothing else, and each of its elements is a text or an integer.
#[verifier::external_body]
pub(crate) fn items_of_cbor(bytes: &[u8]) -> (items: Option<Vec<Item>>)
    ensures
        row_view(items) == cbor_array_items(bytes@),
{
    match serde_cbor::from_slice::<serde_cbor::Value>(bytes) {
        Ok(serde_cbor::Value::Array(values)) => values.into_iter().map(
            |value|
                match value {
                    serde_cbor::Value::Text(text) => Some(Item::Text(text)),
                    serde_cbor::Value::Integer(number) => Some(Item::Number(number)),
                    _ => None,
                },
        ).collect(),
        _ => None,
    }
}

/// The name under which a symbol type stands in a record.
pub open spec fn symbol_type_name(symbol_type: SymbolType) -> Seq<char> {
    match symbol_type {
        SymbolType::StructDeclaration => "StructDeclaration"@,
        SymbolType::TypeAlias => "TypeAlias"@,
        SymbolType::ClassFieldDeclaration => "ClassFieldDeclaration"@,
        SymbolType::ImportDeclaration => "ImportDeclaration"@,
        SymbolType::VariableDefinition => "VariableDefinition"@,
        SymbolType::FunctionDeclaration => "FunctionDeclaration"@,
        SymbolType::CommentDefinition => "CommentDefinition"@,
        SymbolType::FunctionCall => "FunctionCall"@,
        SymbolType::VariableUsage => "VariableUsage"@,
        SymbolType::Unknown => "Unknown"@,
    }
}

/// The symbol type that stands in a record under `name`.
pub open spec fn symbol_type_named(name: Seq<char>) -> Option<SymbolType> {
    if name == "StructDeclaration"@ {
        Some(SymbolType::StructDeclaration)
    } else if name == "TypeAlias"@ {
        Some(SymbolType::TypeAlias)
    } else if name == "ClassFieldDeclaration"@ {
        Some(SymbolType::ClassFieldDeclaration)
    } else if name == "ImportDeclaration"@ {
        Some(SymbolType::ImportDeclaration)
    } else if name == "VariableDefinition"@ {
        Some(SymbolType::VariableDefinition)
    } else if name == "FunctionDeclaration"@ {
        Some(SymbolType::FunctionDeclaration)
    } else if name == "CommentDefinition"@ {
        Some(SymbolType::CommentDefinition)
    } else if name == "FunctionCall"@ {
        Some(SymbolType::FunctionCall)
    } else if name == "VariableUsage"@ {
        Some(SymbolType::VariableUsage)
    } else if name == "Unknown"@ {
        Some(SymbolType::Unknown)
    } else {
        None
    }
}

/// A list of texts in a row: the count, then the texts.
pub open spec fn texts_items(list: Seq<Seq<char>>) -> Seq<ItemView> {
    seq![ItemView::Number(list.len() as int)] + list.map_values(|t: Seq<char>| ItemView::Text(t))
}

/// A usage in a row.
pub open spec fn usage_items(usage: UsageView) -> Seq<ItemView> {
    texts_items(usage.targets_for_guesswork) + seq![
        ItemView::Text(usage.resolved_as),
        ItemView::Text(usage.debug_hint),
    ]
}

/// Usages in a row, one after the other.
pub open spec fn usages_body_items(usages: Seq<UsageView>) -> Seq<ItemView>
    decreases usages.len(),
{
    if usages.len() == 0 {
        Seq::empty()
    } else {
        usages_body_items(usages.drop_last()) + usage_items(usages.last())
    }
}

/// A list of usages in a row: the count, then the usages.
pub open spec fn usages_items(usages: Seq<UsageView>) -> Seq<ItemView> {
    seq![ItemView::Number(usages.len() as int)] + usages_body_items(usages)
}

/// A range in a row.
pub open spec fn range_items(range: Range) -> Seq<ItemView> {
    seq![
        ItemView::Number(range.start_byte as int),
        ItemView::Number(range.end_byte as int),
        ItemView::Number(range.start_point.row as int),
        ItemView::Number(range.start_point.column as int),
        ItemView::Number(range.end_point.row as int),
        ItemView::Number(range.end_point.column as int),
    ]
}

/// The row of a definition.
pub open spec fn definition_items(definition: AltDefinitionView) -> Seq<ItemView> {
    texts_items(definition.official_path) + seq![
        ItemView::Text(symbol_type_name(definition.symbol_type)),
    ] + usages_items(definition.derived_from) + usages_items(definition.usages) + range_items(
        definition.full_range,
    ) + range_items(definition.declaration_range) + range_items(definition.definition_range)
}

/// The number at a place of a row.
pub open spec fn number_at(items: Seq<ItemView>, at: int) -> Option<int> {
    if 0 <= at < items.len() {
        match items[at] {
            ItemView::Number(number) => Some(number),
            ItemView::Text(_) => None,
        }
    } else {
        None
    }
}

/// The text at a place of a row.
pub open spec fn text_at(items: Seq<ItemView>, at: int) -> Option<Seq<char>> {
    if 0 <= at < items.len() {
        match items[at] {
            ItemView::Text(text) => Some(text),
            ItemView::Number(_) => None,
        }
    } else {
        None
    }
}

/// The count at a place of a row: a number of entries that the rest of
/// the row has room for.
pub open spec fn count_at(items: Seq<ItemView>, at: int) -> Option<nat> {
    match number_at(items, at) {
        Some(number) => if 0 <= number && at + 1 + number <= items.len() {
            Some(number as nat)
        } else {
            None
        },
        None => None,
    }
}

/// The number at a place of a row, where it is a size.
pub open spec fn size_at(items: Seq<ItemView>, at: int) -> Option<usize> {
    match number_at(items, at) {
        Some(number) => if 0 <= number <= usize::MAX {
            Some(number as usize)
        } else {
            None
        },
        None => None,
    }
}

/// The `count` texts from a place of a row on.
pub open spec fn texts_at(items: Seq<ItemView>, at: int, count: nat) -> Option<Seq<Seq<char>>>
    decreases count,
{
    if count == 0 {
        Some(Seq::empty())
    } else {
        match (texts_at(items, at, (count - 1) as nat), text_at(items, at + count - 1)) {
            (Some(front), Some(text)) => Some(front.push(text)),
            _ => None,
        }
    }
}

/// The list of texts at a place of a row, and the place after it.
pub open spec fn text_list_at(items: Seq<ItemView>, at: int) -> Option<(Seq<Seq<char>>, int)> {
    match count_at(items, at) {
        Some(count) => match texts_at(items, at + 1, count) {
            Some(list) => Some((list, at + 1 + count)),
            None => None,
        },
        None => None,
    }
}

/// The usage at a place of a row, and the place after it.
pub open spec fn usage_at(items: Seq<ItemView>, at: int) -> Option<(UsageView, int)> {
    match text_list_at(items, at) {
        Some((targets, next)) => match (text_at(items, next), text_at(items, next + 1)) {
            (Some(resolved_as), Some(debug_hint)) => Some(
                (
                    UsageView { targets_for_guesswork: targets, resolved_as, debug_hint },
                    next + 2,
                ),
            ),
            _ => None,
        },
        None => None,
    }
}

/// The `count` usages from a place of a row on, and the place after them.
pub open spec fn usages_at(items: Seq<ItemView>, at: int, count: nat) -> Option<
    (Seq<UsageView>, int),
>
    decreases count,
{
    if count == 0 {
        Some((Seq::empty(), at))
    } else {
        match usages_at(items, at, (count - 1) as nat) {
            Some((front, next)) => match usage_at(items, next) {
                Some((usage, after)) => Some((front.push(usage), after)),
                None => None,
            },
            None => None,
        }
    }
}

/// The list of usages at a place of a row, and the place after it.
pub open spec fn usage_list_at(items: Seq<ItemView>, at: int) -> Option<(Seq<UsageView>, int)> {
    match count_at(items, at) {
        Some(count) => usages_at(items, at + 1, count),
        None => None,
    }
}

/// The range at a place of a row.
pub open spec fn range_at(items: Seq<ItemView>, at: int) -> Option<Range> {
    match (
        size_at(items, at),
        size_at(items, at + 1),
        size_at(items, at + 2),
        size_at(items, at + 3),
        size_at(items, at + 4),
        size_at(items, at + 5),
    ) {
        (Some(start_byte), Some(end_byte), Some(r0), Some(c0), Some(r1), Some(c1)) => Some(
            Range {
                start_byte,
                end_byte,
                start_point: Point { row: r0, column: c0 },
                end_point: Point { row: r1, column: c1 },
            },
        ),
        _ => None,
    }
}

/// The symbol type named at a place of a row.
pub open spec fn symbol_type_at(items: Seq<ItemView>, at: int) -> Option<SymbolType> {
    match text_at(items, at) {
        Some(name) => symbol_type_named(name),
        None => None,
    }
}

/// The definition that a row lays out, or `None` where the row is not
/// the layout of a definition from its first entry to its last.
pub open spec fn items_definition(items: Seq<ItemView>) -> Option<AltDefinitionView> {
    match text_list_at(items, 0) {
        Some((official_path, kind_at)) => match symbol_type_at(items, kind_at) {
            Some(symbol_type) => match usage_list_at(items, kind_at + 1) {
                Some((derived_from, used_at)) => match usage_list_at(items, used_at) {
                    Some((usages, ranges_at)) => match (
                        range_at(items, ranges_at),
                        range_at(items, ranges_at + 6),
                        range_at(items, ranges_at + 12),
                    ) {
                        (Some(full_range), Some(declaration_range), Some(definition_range)) => if ranges_at
                            + 18 == items.len() {
                            Some(
                                AltDefinitionView {
                                    official_path,
                                    symbol_type,
                                    derived_from,
                                    usages,
                                    full_range,
                                    declaration_range,
                                    definition_range,
                                },
                            )
                        } else {
                            None
                        },
                        _ => None,
                    },
                    None => None,
                },
                None => None,
            },
            None => None,
        },
        None => None,
    }
}

/// The definition that a record holds, or `None` where the bytes are not
/// the record of a definition.
#[verifier::opaque]
pub open spec fn record_definition(record: Seq<u8>) -> Option<AltDefinitionView> {
    match cbor_array_items(record) {
        Some(items) => items_definition(items),
        None => None,
    }
}

/// The record of a definition: the CBOR form of its row, where the
/// encoder gives one that reads back as the same definition.
pub open spec fn definition_record(definition: AltDefinitionView) -> Option<Seq<u8>> {
    match cbor_array_bytes(definition_items(definition)) {
        Some(record) => if record_definition(record) == Some(definition) {
            Some(record)
        } else {
            None
        },
        None => None,
    }
}

/// The name under which a symbol type stands in a record.
pub fn symbol_type_string(symbol_type: SymbolType) -> (name: String)
    ensures
        name@ == symbol_type_name(symbol_type),
{
    match symbol_type {
        SymbolType::StructDeclaration => String::from_str("StructDeclaration"),
        SymbolType::TypeAlias => String::from_str("TypeAlias"),
        SymbolType::ClassFieldDeclaration => String::from_str("ClassFieldDeclaration"),
        SymbolType::ImportDeclaration => String::from_str("ImportDeclaration"),
        SymbolType::VariableDefinition => String::from_str("VariableDefinition"),
        SymbolType::FunctionDeclaration => String::from_str("FunctionDeclaration"),
        SymbolType::CommentDefinition => String::from_str("CommentDefinition"),
        SymbolType::FunctionCall => String::from_str("FunctionCall"),
        SymbolType::VariableUsage => String::from_str("VariableUsage"),
        SymbolType::Unknown => String::from_str("Unknown"),
    }
}

/// The symbol type that stands in a record under `name`.
pub fn symbol_type_of_name(name: &String) -> (symbol_type: Option<SymbolType>)
    ensures
        symbol_type == symbol_type_named(name@),
{
    if *name == String::from_str("StructDeclaration") {
        Some(SymbolType::StructDeclaration)
    } else if *name == String::from_str("TypeAlias") {
        Some(SymbolType::TypeAlias)
    } else if *name == String::from_str("ClassFieldDeclaration") {
        Some(SymbolType::ClassFieldDeclaration)
    } else if *name == String::from_str("ImportDeclaration") {
        Some(SymbolType::ImportDeclaration)
    } else if *name == String::from_str("VariableDefinition") {
        Some(SymbolType::VariableDefinition)
    } else if *name == String::from_str("FunctionDeclaration") {
        Some(SymbolType::FunctionDeclaration)
    } else if *name == String::from_str("CommentDefinition") {
        Some(SymbolType::CommentDefinition)
    } else if *name == String::from_str("FunctionCall") {
        Some(SymbolType::FunctionCall)
    } else if *name == String::from_str("VariableUsage") {
        Some(SymbolType::VariableUsage)
    } else if *name == String::from_str("Unknown") {
        Some(SymbolType::Unknown)
    } else {
        None
    }
}

/// Adds a list of texts to a row.
pub fn push_texts(row: &mut Vec<Item>, list: &Vec<String>)
    ensures
        item_views(final(row)@) == item_views(old(row)@) + texts_items(texts(list@)),
{
    let ghost before = item_views(row@);
    row.push(Item::Number(list.len() as i128));
    let ghost wanted = texts_items(texts(list@));
    proof {
        assert(item_views(row@) =~= before + wanted.take(1));
    }
    let mut i: usize = 0;
    while i < list.len()
        invariant
            i <= list.len(),
            wanted == texts_items(texts(list@)),
            item_views(row@) == before + wanted.take(i + 1),
        decreases list.len() - i,
    {
        let ghost so_far = item_views(row@);
        row.push(Item::Text(list[i].clone()));
        i += 1;
        proof {
            assert(wanted[i as int] == ItemView::Text(list@[i - 1]@));
            assert(item_views(row@) =~= so_far.push(ItemView::Text(list@[i - 1]@)));
            assert(wanted.take(i + 1) =~= wanted.take(i as int).push(wanted[i as int]));
            assert(item_views(row@) =~= before + wanted.take(i + 1));
        }
    }
    proof {
        assert(wanted.take(list.len() + 1) =~= wanted);
    }
}

/// Adds a usage to a row.
pub fn push_usage(row: &mut Vec<Item>, usage: &Usage)
    ensures
        item_views(final(row)@) == item_views(old(row)@) + usage_items(usage@),
{
    let ghost before = item_views(row@);
    push_texts(row, &usage.targets_for_guesswork);
    let ghost listed = item_views(row@);
    row.push(Item::Text(usage.resolved_as.clone()));
    let ghost resolved = item_views(row@);
    row.push(Item::Text(usage.debug_hint.clone()));
    proof {
        assert(resolved =~= listed.push(ItemView::Text(usage@.resolved_as)));
        assert(item_views(row@) =~= resolved.push(ItemView::Text(usage@.debug_hint)));
        assert(item_views(row@) =~= before + usage_items(usage@));
    }
}

/// Adds a list of usages to a row.
pub fn push_usages(row: &mut Vec<Item>, usages: &Vec<Usage>)
    ensures
        item_views(final(row)@) == item_views(old(row)@) + usages_items(usage_views(usages@)),
{
    let ghost before = item_views(row@);
    let ghost views = usage_views(usages@);
    row.push(Item::Number(usages.len() as i128));
    let ghost head = before.push(ItemView::Number(usages.len() as int));
    proof {
        assert(item_views(row@) =~= head);
    }
    let mut i: usize = 0;
    while i < usages.len()
        invariant
            i <= usages.len(),
            views == usage_views(usages@),
            item_views(row@) == head + usages_body_items(views.take(i as int)),
        decreases usages.len() - i,
    {
        push_usage(row, &usages[i]);
        i += 1;
        proof {
            assert(views.take(i as int).drop_last() =~= views.take(i - 1));
            assert(views.take(i as int).last() == usages@[i - 1]@);
            assert(item_views(row@) =~= head + usages_body_items(views.take(i as int)));
        }
    }
    proof {
        assert(views.take(usages.len() as int) =~= views);
        assert(item_views(row@) =~= before + usages_items(views));
    }
}

/// Adds a range to a row.
pub fn push_range(row: &mut Vec<Item>, range: &Range)
    ensures
        item_views(final(row)@) == item_views(old(row)@) + range_items(*range),
{
    let ghost before = item_views(row@);
    row.push(Item::Number(range.start_byte as i128));
    row.push(Item::Number(range.end_byte as i128));
    row.push(Item::Number(range.start_point.row as i128));
    row.push(Item::Number(range.start_point.column as i128));
    row.push(Item::Number(range.end_point.row as i128));
    row.push(Item::Number(range.end_point.column as i128));
    proof {
        assert(item_views(row@) =~= before + range_items(*range));
    }
}

/// Lays a definition out as a row.
pub fn definition_row(definition: &AltDefinition) -> (row: Vec<Item>)
    ensures
        item_views(row@) == definition_items(definition@),
{
    let mut row: Vec<Item> = Vec::new();
    push_texts(&mut row, &definition.official_path);
    row.push(Item::Text(symbol_type_string(definition.symbol_type)));
    push_usages(&mut row, &definition.derived_from);
    push_usages(&mut row, &definition.usages);
    push_range(&mut row, &definition.full_range);
    push_range(&mut row, &definition.declaration_range);
    push_range(&mut row, &definition.definition_range);
    proof {
        assert(item_views(row@) =~= definition_items(definition@));
    }
    row
}

/// Reads the number at a place of a row.
pub fn read_number(items: &Vec<Item>, at: usize) -> (number: Option<i128>)
    ensures
        match number {
            Some(n) => number_at(item_views(items@), at as int) == Some(n as int),
            None => number_at(item_views(items@), at as int) is None,
        },
{
    if at < items.len() {
        match &items[at] {
            Item::Number(n) => Some(*n),
            Item::Text(_) => None,
        }
    } else {
        None
    }
}

/// Reads the text at a place of a row.
pub fn read_text(items: &Vec<Item>, at: usize) -> (text: Option<String>)
    ensures
        match text {
            Some(t) => text_at(item_views(items@), at as int) == Some(t@),
            None => text_at(item_views(items@), at as int) is None,
        },
{
    if at < items.len() {
        match &items[at] {
            Item::Text(t) => Some(t.clone()),
            Item::Number(_) => None,
        }
    } else {
        None
    }
}

/// Reads the count at a place of a row.
pub fn read_count(items: &Vec<Item>, at: usize) -> (count: Option<usize>)
    ensures
        match count {
            Some(n) => count_at(item_views(items@), at as int) == Some(n as nat) && at + 1 + n
                <= items.len(),
            None => count_at(item_views(items@), at as int) is None,
        },
{
    match read_number(items, at) {
        Some(n) => {
            if 0 <= n && n <= (items.len() - at - 1) as i128 {
                Some(n as usize)
            } else {
                None
            }
        },
        None => None,
    }
}

/// Reads the size at a place of a row.
pub fn read_size(items: &Vec<Item>, at: usize) -> (size: Option<usize>)
    ensures
        size == size_at(item_views(items@), at as int),
{
    match read_number(items, at) {
        Some(n) => {
            if 0 <= n && n <= usize::MAX as i128 {
                Some(n as usize)
            } else {
                None
            }
        },
        None => None,
    }
}

/// Reads the list of texts at a place of a row.
pub fn read_text_list(items: &Vec<Item>, at: usize) -> (found: Option<(Vec<String>, usize)>)
    ensures
        match found {
            Some((list, next)) => text_list_at(item_views(items@), at as int) == Some(
                (texts(list@), next as int),
            ) && next <= items.len(),
            None => text_list_at(item_views(items@), at as int) is None,
        },
{
    let count = match read_count(items, at) {
        Some(count) => count,
        None => {
            return None;
        },
    };
    let mut list: Vec<String> = Vec::new();
    let mut i: usize = 0;
    while i < count
        invariant
            i <= count,
            at + 1 + count <= items.len(),
            count_at(item_views(items@), at as int) == Some(count as nat),
            texts_at(item_views(items@), at + 1, i as nat) == Some(texts(list@)),
        decreases count - i,
    {
        match read_text(items, at + 1 + i) {
            Some(text) => {
                let ghost so_far = texts(list@);
                list.push(text);
                proof {
                    assert(texts(list@) =~= so_far.push(text@));
                }
            },
            None => {
                proof {
                    let views = item_views(items@);
                    assert(text_at(views, at + 1 + (i + 1) - 1) is None);
                    assert(texts_at(views, at + 1, (i + 1) as nat) is None);
                    lemma_texts_fail(views, at + 1, (i + 1) as nat, count as nat);
                }
                return None;
            },
        }
        i += 1;
    }
    Some((list, at + 1 + count))
}

/// Where fewer texts cannot be read, more cannot be read.
pub proof fn lemma_texts_fail(items: Seq<ItemView>, at: int, fewer: nat, more: nat)
    requires
        fewer <= more,
        texts_at(items, at, fewer) is None,
    ensures
        texts_at(items, at, more) is None,
    decreases more,
{
    if fewer < more {
        lemma_texts_fail(items, at, fewer, (more - 1) as nat);
    }
}

/// Where fewer usages cannot be read, more cannot be read.
pub proof fn lemma_usages_fail(items: Seq<ItemView>, at: int, fewer: nat, more: nat)
    requires
        fewer <= more,
        usages_at(items, at, fewer) is None,
    ensures
        usages_at(items, at, more) is None,
    decreases more,
{
    if fewer < more {
        lemma_usages_fail(items, at, fewer, (more - 1) as nat);
    }
}

/// Reads the usage at a place of a row.
pub fn read_usage(items: &Vec<Item>, at: usize) -> (found: Option<(Usage, usize)>)
    ensures
        match found {
            Some((usage, next)) => usage_at(item_views(items@), at as int) == Some(
                (usage@, next as int),
            ) && next <= items.len(),
            None => usage_at(item_views(items@), at as int) is None,
        },
{
    let (targets, next) = match read_text_list(items, at) {
        Some(found) => found,
        None => {
            return None;
        },
    };
    let resolved_as = match read_text(items, next) {
        Some(text) => text,
        None => {
            return None;
        },
    };
    if next + 1 >= items.len() {
        return None;
    }
    let debug_hint = match read_text(items, next + 1) {
        Some(text) => text,
        None => {
            return None;
        },
    };
    Some((Usage { targets_for_guesswork: targets, resolved_as, debug_hint }, next + 2))
}

/// Reads the list of usages at a place of a row.
pub fn read_usage_list(items: &Vec<Item>, at: usize) -> (found: Option<(Vec<Usage>, usize)>)
    ensures
        match found {
            Some((list, next)) => usage_list_at(item_views(items@), at as int) == Some(
                (usage_views(list@), next as int),
            ) && next <= items.len(),
            None => usage_list_at(item_views(items@), at as int) is None,
        },
{
    let count = match read_count(items, at) {
        Some(count) => count,
        None => {
            return None;
        },
    };
    let mut list: Vec<Usage> = Vec::new();
    let mut next: usize = at + 1;
    let mut i: usize = 0;
    while i < count
        invariant
            i <= count,
            next <= items.len(),
            count_at(item_views(items@), at as int) == Some(count as nat),
            usages_at(item_views(items@), at + 1, i as nat) == Some(
                (usage_views(list@), next as int),
            ),
        decreases count - i,
    {
        match read_usage(items, next) {
            Some((usage, after)) => {
                let ghost so_far = usage_views(list@);
                list.push(usage);
                proof {
                    assert(usage_views(list@) =~= so_far.push(usage@));
                }
                next = after;
            },
            None => {
                proof {
                    let views = item_views(items@);
                    assert(usages_at(views, at + 1, (i + 1) as nat) is None);
                    lemma_usages_fail(views, at + 1, (i + 1) as nat, count as nat);
                }
                return None;
            },
        }
        i += 1;
    }
    Some((list, next))
}

/// Reads the range at a place of a row.
pub fn read_range(items: &Vec<Item>, at: usize) -> (range: Option<Range>)
    requires
        at + 6 <= usize::MAX,
    ensures
        range == range_at(item_views(items@), at as int),
{
    let start_byte = read_size(items, at);
    let end_byte = read_size(items, at + 1);
    let r0 = read_size(items, at + 2);
    let c0 = read_size(items, at + 3);
    let r1 = read_size(items, at + 4);
    let c1 = read_size(items, at + 5);
    match (start_byte, end_byte, r0, c0, r1, c1) {
        (Some(start_byte), Some(end_byte), Some(r0), Some(c0), Some(r1), Some(c1)) => Some(
            Range {
                start_byte,
                end_byte,
                start_point: Point { row: r0, column: c0 },
                end_point: Point { row: r1, column: c1 },
            },
        ),
        _ => None,
    }
}

/// Reads a row as a definition.
pub fn row_definition(items: &Vec<Item>) -> (definition: Option<AltDefinition>)
    ensures
        match definition {
            Some(d) => items_definition(item_views(items@)) == Some(d@),
            None => items_definition(item_views(items@)) is None,
        },
{
    let (official_path, kind_at) = match read_text_list(items, 0) {
        Some(found) => found,
        None => {
            return None;
        },
    };
    let symbol_type = match read_text(items, kind_at) {
        Some(name) => match symbol_type_of_name(&name) {
            Some(symbol_type) => symbol_type,
            None => {
                return None;
            },
        },
        None => {
            return None;
        },
    };
    let (derived_from, used_at) = match read_usage_list(items, kind_at + 1) {
        Some(found) => found,
        None => {
            return None;
        },
    };
    let (usages, ranges_at) = match read_usage_list(items, used_at) {
        Some(found) => found,
        None => {
            return None;
        },
    };
    if items.len() - ranges_at != 18 {
        proof {
            let views = item_views(items@);
            if ranges_at + 18 < views.len() {
            } else {
                assert(size_at(views, ranges_at + 17) is None);
                assert(range_at(views, ranges_at + 12) is None);
            }
        }
        return None;
    }
    let full_range = match read_range(items, ranges_at) {
        Some(range) => range,
        None => {
            return None;
        },
    };
    let declaration_range = match read_range(items, ranges_at + 6) {
        Some(range) => range,
        None => {
            return None;
        },
    };
    let definition_range = match read_range(items, ranges_at + 12) {
        Some(range) => range,
        None => {
            return None;
        },
    };
    Some(
        AltDefinition {
            official_path,
            symbol_type,
            derived_from,
            usages,
            full_range,
            declaration_range,
            definition_range,
        },
    )
}

/// Reads a record as a definition.
pub fn read_record(record: &[u8]) -> (definition: Option<AltDefinition>)
    ensures
        match definition {
            Some(d) => record_definition(record@) == Some(d@),
            None => record_definition(record@) is None,
        },
{
    proof {
        reveal(record_definition);
    }
    match items_of_cbor(record) {
        Some(items) => row_definition(&items),
        None => None,
    }
}

/// Makes the record of a definition, and accepts it only after it has
/// been read back as the same definition.
pub fn write_record(definition: &AltDefinition) -> (record: Option<Vec<u8>>)
    ensures
        bytes_view(record) == definition_record(definition@),
{
    let row = definition_row(definition);
    match items_to_cbor(&row) {
        Some(record) => {
            match read_record(record.as_slice()) {
                Some(back) => {
                    if back.same_as(definition) {
                        Some(record)
                    } else {
                        None
                    }
                },
                None => None,
            }
        },
        None => None,
    }
}

} // verus!
