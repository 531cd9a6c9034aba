//! That the row of a definition reads back as the definition.

use vstd::prelude::*;
use crate::codec::{
    ItemView,
    count_at,
    definition_items,
    items_definition,
    range_at,
    range_items,
    symbol_type_name,
    symbol_type_named,
    text_list_at,
    texts_at,
    texts_items,
    usage_at,
    usage_items,
    usage_list_at,
    usages_at,
    usages_body_items,
    usages_items,
};
use crate::model::{AltDefinitionView, Range, SymbolType, UsageView};

verus! {

/// A list of texts that stands in a row is read back from its place.
pub proof fn lemma_read_texts(front: Seq<ItemView>, list: Seq<Seq<char>>, rest: Seq<ItemView>)
    ensures
        text_list_at(front + texts_items(list) + rest, front.len() as int) == Some(
            (list, (front.len() + 1 + list.len()) as int),
        ),
        texts_items(list).len() == 1 + list.len(),
{
    let items = front + texts_items(list) + rest;
    let at = front.len() as int;
    assert(items[at] == texts_items(list)[0]);
    assert(count_at(items, at) == Some(list.len()));
    lemma_read_some_texts(items, at + 1, list, list.len());
    assert(list.take(list.len() as int) =~= list);
}

/// The first texts of a list that stands in a row are read back.
pub proof fn lemma_read_some_texts(
    items: Seq<ItemView>,
    at: int,
    list: Seq<Seq<char>>,
    count: nat,
)
    requires
        0 <= at,
        count <= list.len(),
        at + list.len() <= items.len(),
        forall|j: int| 0 <= j < list.len() ==> #[trigger] items[at + j] == ItemView::Text(list[j]),
    ensures
        texts_at(items, at, count) == Some(list.take(count as int)),
    decreases count,
{
    if count == 0 {
        assert(list.take(0) =~= Seq::<Seq<char>>::empty());
    } else {
        lemma_read_some_texts(items, at, list, (count - 1) as nat);
        assert(items[at + (count - 1)] == ItemView::Text(list[count - 1]));
        assert(list.take(count as int) =~= list.take(count - 1).push(list[count - 1]));
    }
}

/// A usage that stands in a row is read back from its place.
pub proof fn lemma_read_usage(front: Seq<ItemView>, usage: UsageView, rest: Seq<ItemView>)
    ensures
        usage_at(front + usage_items(usage) + rest, front.len() as int) == Some(
            (usage, (front.len() + usage_items(usage).len()) as int),
        ),
        usage_items(usage).len() == 3 + usage.targets_for_guesswork.len(),
{
    let items = front + usage_items(usage) + rest;
    let tail = seq![ItemView::Text(usage.resolved_as), ItemView::Text(usage.debug_hint)];
    let listed = texts_items(usage.targets_for_guesswork);
    lemma_read_texts(front, usage.targets_for_guesswork, tail + rest);
    assert(items =~= front + listed + (tail + rest));
    let next = (front.len() + listed.len()) as int;
    assert(items[next] == tail[0]);
    assert(items[next + 1] == tail[1]);
    let found = usage_at(items, front.len() as int)->0;
    let read = found.0;
    assert(read =~= usage);
}

/// Usages that stand in a row one after the other are read back.
pub proof fn lemma_read_usages(front: Seq<ItemView>, usages: Seq<UsageView>, rest: Seq<ItemView>)
    ensures
        usages_at(front + usages_body_items(usages) + rest, front.len() as int, usages.len())
            == Some((usages, (front.len() + usages_body_items(usages).len()) as int)),
        usages_body_items(usages).len() >= usages.len(),
    decreases usages.len(),
{
    let items = front + usages_body_items(usages) + rest;
    if usages.len() > 0 {
        let before = usages.drop_last();
        let last = usages.last();
        let body = usages_body_items(before);
        lemma_read_usages(front, before, usage_items(last) + rest);
        assert(items =~= front + body + (usage_items(last) + rest));
        lemma_read_usage(front + body, last, rest);
        assert(items =~= (front + body) + usage_items(last) + rest);
        assert(before.push(last) =~= usages);
    } else {
        assert(usages =~= Seq::<UsageView>::empty());
    }
}

/// A list of usages that stands in a row is read back from its place.
pub proof fn lemma_read_usage_list(
    front: Seq<ItemView>,
    usages: Seq<UsageView>,
    rest: Seq<ItemView>,
)
    ensures
        usage_list_at(front + usages_items(usages) + rest, front.len() as int) == Some(
            (usages, (front.len() + usages_items(usages).len()) as int),
        ),
{
    let items = front + usages_items(usages) + rest;
    let head = seq![ItemView::Number(usages.len() as int)];
    lemma_read_usages(front + head, usages, rest);
    assert(items =~= (front + head) + usages_body_items(usages) + rest);
    assert(items[front.len() as int] == head[0]);
}

/// A range that stands in a row is read back from its place.
pub proof fn lemma_read_range(front: Seq<ItemView>, range: Range, rest: Seq<ItemView>)
    ensures
        range_at(front + range_items(range) + rest, front.len() as int) == Some(range),
        range_items(range).len() == 6,
{
    let items = front + range_items(range) + rest;
    let at = front.len() as int;
    let six = range_items(range);
    assert(items[at] == six[0]);
    assert(items[at + 1] == six[1]);
    assert(items[at + 2] == six[2]);
    assert(items[at + 3] == six[3]);
    assert(items[at + 4] == six[4]);
    assert(items[at + 5] == six[5]);
}

/// A symbol type is read back from its name.
pub proof fn lemma_read_symbol_type(symbol_type: SymbolType)
    ensures
        symbol_type_named(symbol_type_name(symbol_type)) == Some(symbol_type),
{
    reveal_strlit("StructDeclaration");
    reveal_strlit("TypeAlias");
    reveal_strlit("ClassFieldDeclaration");
    reveal_strlit("ImportDeclaration");
    reveal_strlit("VariableDefinition");
    reveal_strlit("FunctionDeclaration");
    reveal_strlit("CommentDefinition");
    reveal_strlit("FunctionCall");
    reveal_strlit("VariableUsage");
    reveal_strlit("Unknown");
    assert("StructDeclaration"@[0] == 'S');
    assert("ImportDeclaration"@[0] == 'I');
    assert("CommentDefinition"@[0] == 'C');
    assert("StructDeclaration"@.len() == 17);
    assert("TypeAlias"@.len() == 9);
    assert("ClassFieldDeclaration"@.len() == 21);
    assert("ImportDeclaration"@.len() == 17);
    assert("VariableDefinition"@.len() == 18);
    assert("FunctionDeclaration"@.len() == 19);
    assert("CommentDefinition"@.len() == 17);
    assert("FunctionCall"@.len() == 12);
    assert("VariableUsage"@.len() == 13);
    assert("Unknown"@.len() == 7);
}

/// The row of a definition reads back as the definition.
#[verifier::rlimit(60)]
pub proof fn law_row_reads_back(definition: AltDefinitionView)
    ensures
        items_definition(definition_items(definition)) == Some(definition),
{
    let items = definition_items(definition);
    let path = texts_items(definition.official_path);
    let kind = seq![ItemView::Text(symbol_type_name(definition.symbol_type))];
    let derived = usages_items(definition.derived_from);
    let used = usages_items(definition.usages);
    let full = range_items(definition.full_range);
    let declared = range_items(definition.declaration_range);
    let defined = range_items(definition.definition_range);
    let none = Seq::<ItemView>::empty();

    lemma_read_texts(none, definition.official_path, kind + derived + used + full + declared + defined);
    assert(items =~= none + path + (kind + derived + used + full + declared + defined));
    let kind_at = path.len() as int;
    assert(items[kind_at] == kind[0]);
    lemma_read_symbol_type(definition.symbol_type);

    lemma_read_usage_list(path + kind, definition.derived_from, used + full + declared + defined);
    assert(items =~= (path + kind) + derived + (used + full + declared + defined));
    let used_at = kind_at + 1 + derived.len();

    lemma_read_usage_list(path + kind + derived, definition.usages, full + declared + defined);
    assert(items =~= (path + kind + derived) + used + (full + declared + defined));
    let ranges_at = used_at + used.len();

    lemma_read_range(path + kind + derived + used, definition.full_range, declared + defined);
    assert(items =~= (path + kind + derived + used) + full + (declared + defined));
    lemma_read_range(path + kind + derived + used + full, definition.declaration_range, defined);
    assert(items =~= (path + kind + derived + used + full) + declared + defined);
    lemma_read_range(
        path + kind + derived + used + full + declared,
        definition.definition_range,
        none,
    );
    assert(items =~= (path + kind + derived + used + full + declared) + defined + none);
    assert(ranges_at + 18 == items.len());
    let read = items_definition(items)->0;
    assert(read =~= definition);
}

} // verus!
