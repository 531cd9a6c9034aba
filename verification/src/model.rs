//! The symbol records: a definition, the usages in its body, and where it
//! stands in its file.

use vstd::prelude::*;
use vstd::string::StringExecFns;
use crate::text::{join, join_strings, texts};

verus! {

/// What kind of symbol a definition is.
#[derive(Clone, Copy, Debug, PartialEq, Eq, Hash, Structural)]
pub enum SymbolType {
    StructDeclaration,
    TypeAlias,
    ClassFieldDeclaration,
    ImportDeclaration,
    VariableDefinition,
    FunctionDeclaration,
    CommentDefinition,
    FunctionCall,
    VariableUsage,
    Unknown,
}

/// A place in a file, by row and column.
#[derive(Clone, Copy, Debug, PartialEq, Eq, Hash, Structural)]
pub struct Point {
    pub row: usize,
    pub column: usize,
}

/// A stretch of a file, by bytes and by points.
#[derive(Clone, Copy, Debug, PartialEq, Eq, Hash, Structural)]
pub struct Range {
    pub start_byte: usize,
    pub end_byte: usize,
    pub start_point: Point,
    pub end_point: Point,
}

/// A reference from inside one definition to another symbol.
#[derive(Clone, Debug, PartialEq, Eq)]
pub struct Usage {
    /// The paths that the usage may mean, the most specific first, each
    /// with `::` between its components; a leading `?` component stands
    /// for a root that is not known.
    pub targets_for_guesswork: Vec<String>,
    /// The path that was chosen, or the empty text.
    pub resolved_as: String,
    /// Free text for a reader; the index never looks at it.
    pub debug_hint: String,
}

/// A parsed symbol.
#[derive(Clone, Debug, PartialEq, Eq)]
pub struct AltDefinition {
    /// The components of the full path: those of the file first, then the
    /// naming scopes down to the symbol.
    pub official_path: Vec<String>,
    pub symbol_type: SymbolType,
    /// The supertypes.
    pub derived_from: Vec<Usage>,
    /// The references that leave the definition's body.
    pub usages: Vec<Usage>,
    pub full_range: Range,
    pub declaration_range: Range,
    pub definition_range: Range,
}

/// A usage as a mathematical value.
#[verifier::ext_equal]
pub struct UsageView {
    pub targets_for_guesswork: Seq<Seq<char>>,
    pub resolved_as: Seq<char>,
    pub debug_hint: Seq<char>,
}

/// A definition as a mathematical value.
#[verifier::ext_equal]
pub struct AltDefinitionView {
    pub official_path: Seq<Seq<char>>,
    pub symbol_type: SymbolType,
    pub derived_from: Seq<UsageView>,
    pub usages: Seq<UsageView>,
    pub full_range: Range,
    pub declaration_range: Range,
    pub definition_range: Range,
}

impl View for Usage {
    type V = UsageView;

    open spec fn view(&self) -> UsageView {
        UsageView {
            targets_for_guesswork: texts(self.targets_for_guesswork@),
            resolved_as: self.resolved_as@,
            debug_hint: self.debug_hint@,
        }
    }
}

/// The views of a sequence of usages.
pub open spec fn usage_views(usages: Seq<Usage>) -> Seq<UsageView> {
    usages.map_values(|u: Usage| u@)
}

impl View for AltDefinition {
    type V = AltDefinitionView;

    open spec fn view(&self) -> AltDefinitionView {
        AltDefinitionView {
            official_path: texts(self.official_path@),
            symbol_type: self.symbol_type,
            derived_from: usage_views(self.derived_from@),
            usages: usage_views(self.usages@),
            full_range: self.full_range,
            declaration_range: self.declaration_range,
            definition_range: self.definition_range,
        }
    }
}

/// The views of a sequence of definitions.
pub open spec fn definition_views(definitions: Seq<AltDefinition>) -> Seq<AltDefinitionView> {
    definitions.map_values(|d: AltDefinition| d@)
}

/// What stands between the components of a path.
pub open spec fn path_separator() -> Seq<char> {
    seq![':', ':']
}

/// The text form of a path: its components with `::` between them.
pub open spec fn path_text(components: Seq<Seq<char>>) -> Seq<char> {
    join(components, path_separator())
}

/// The last component of a path, or the empty text for the empty path.
pub open spec fn path_name(components: Seq<Seq<char>>) -> Seq<char> {
    if components.len() == 0 {
        Seq::empty()
    } else {
        components.last()
    }
}

/// What a usage points to, for a reader: the path it was resolved as, or
/// its targets with a blank between them and `, unresolved` after them.
pub open spec fn usage_target_text(usage: UsageView) -> Seq<char> {
    if usage.resolved_as.len() > 0 {
        usage.resolved_as
    } else {
        join(usage.targets_for_guesswork, seq![' ']) + ", unresolved"@
    }
}

/// The text `Link{ hint target }` of a usage.
pub open spec fn usage_text(usage: UsageView) -> Seq<char> {
    "Link{ "@ + usage.debug_hint + seq![' '] + usage_target_text(usage) + " }"@
}

/// The texts of the usages with a blank between them.
pub open spec fn usages_text(usages: Seq<UsageView>) -> Seq<char> {
    join(usages.map_values(|u: UsageView| usage_text(u)), seq![' '])
}

/// The text of a list of usages under a label, or nothing where the list
/// is empty.
pub open spec fn labelled_usages_text(label: Seq<char>, usages: Seq<UsageView>) -> Seq<char> {
    if usages.len() == 0 {
        Seq::empty()
    } else {
        label + usages_text(usages)
    }
}

/// The text `AltDefinition { path, usages: .., derived_from: .. }` of a
/// definition, each of the two lists left out where it is empty.
pub open spec fn definition_text(definition: AltDefinitionView) -> Seq<char> {
    "AltDefinition { "@ + path_text(definition.official_path) + labelled_usages_text(
        ", usages: "@,
        definition.usages,
    ) + labelled_usages_text(", derived_from: "@, definition.derived_from) + " }"@
}

impl Usage {
    /// The usage as text for a reader.
    pub fn debug_string(&self) -> (out: String)
        ensures
            out@ == usage_text(self@),
    {
        let mut out = String::from_str("Link{ ");
        out.append(self.debug_hint.as_str());
        out.append(" ");
        if self.resolved_as.as_str().unicode_len() > 0 {
            out.append(self.resolved_as.as_str());
        } else {
            let targets = join_strings(&self.targets_for_guesswork, 0, " ");
            out.append(targets.as_str());
            out.append(", unresolved");
        }
        out.append(" }");
        proof {
            reveal_strlit(" ");
            assert(" "@ =~= seq![' ']);
            assert(texts(self.targets_for_guesswork@).skip(0) =~= texts(
                self.targets_for_guesswork@,
            ));
            assert(out@ =~= usage_text(self@));
        }
        out
    }
}

/// The texts of the usages with a blank between them.
pub fn usages_string(usages: &Vec<Usage>) -> (out: String)
    ensures
        out@ == usages_text(usage_views(usages@)),
{
    let mut texts_of: Vec<String> = Vec::new();
    let mut i: usize = 0;
    while i < usages.len()
        invariant
            i <= usages.len(),
            texts_of.len() == i,
            forall|j: int| 0 <= j < i ==> (#[trigger] texts_of@[j])@ == usage_text(usages@[j]@),
        decreases usages.len() - i,
    {
        texts_of.push(usages[i].debug_string());
        i += 1;
    }
    let out = join_strings(&texts_of, 0, " ");
    proof {
        reveal_strlit(" ");
        assert(" "@ =~= seq![' ']);
        assert(texts(texts_of@).skip(0) =~= usage_views(usages@).map_values(
            |u: UsageView| usage_text(u),
        ));
    }
    out
}

impl AltDefinition {
    /// The full path as text: the components with `::` between them.
    pub fn path(&self) -> (out: String)
        ensures
            out@ == path_text(self@.official_path),
    {
        let out = join_strings(&self.official_path, 0, "::");
        proof {
            reveal_strlit("::");
            assert("::"@ =~= path_separator());
            assert(texts(self.official_path@).skip(0) =~= texts(self.official_path@));
        }
        out
    }

    /// The symbol's own name: the last component of its path.
    pub fn name(&self) -> (out: String)
        ensures
            out@ == path_name(self@.official_path),
    {
        if self.official_path.len() == 0 {
            String::new()
        } else {
            self.official_path[self.official_path.len() - 1].clone()
        }
    }

    /// The definition as text for a reader, with its usages and what it
    /// derives from.
    pub fn debug_string(&self) -> (out: String)
        ensures
            out@ == definition_text(self@),
    {
        let mut out = String::from_str("AltDefinition { ");
        out.append(self.path().as_str());
        if self.usages.len() > 0 {
            out.append(", usages: ");
            out.append(usages_string(&self.usages).as_str());
        }
        if self.derived_from.len() > 0 {
            out.append(", derived_from: ");
            out.append(usages_string(&self.derived_from).as_str());
        }
        out.append(" }");
        proof {
            assert(out@ =~= definition_text(self@));
        }
        out
    }
}


/// Tests whether two lists hold the same texts in the same order.
pub fn same_texts(a: &Vec<String>, b: &Vec<String>) -> (same: bool)
    ensures
        same == (texts(a@) == texts(b@)),
{
    if a.len() != b.len() {
        proof {
            assert(texts(a@).len() != texts(b@).len());
        }
        return false;
    }
    let mut i: usize = 0;
    while i < a.len()
        invariant
            i <= a.len(),
            a.len() == b.len(),
            forall|j: int| 0 <= j < i ==> (#[trigger] a@[j])@ == b@[j]@,
        decreases a.len() - i,
    {
        if a[i] != b[i] {
            proof {
                assert(texts(a@)[i as int] != texts(b@)[i as int]);
            }
            return false;
        }
        i += 1;
    }
    proof {
        assert(texts(a@) =~= texts(b@));
    }
    true
}

/// Tests whether two lists hold the same usages in the same order.
pub fn same_usages(a: &Vec<Usage>, b: &Vec<Usage>) -> (same: bool)
    ensures
        same == (usage_views(a@) == usage_views(b@)),
{
    if a.len() != b.len() {
        proof {
            assert(usage_views(a@).len() != usage_views(b@).len());
        }
        return false;
    }
    let mut i: usize = 0;
    while i < a.len()
        invariant
            i <= a.len(),
            a.len() == b.len(),
            forall|j: int| 0 <= j < i ==> (#[trigger] a@[j])@ == b@[j]@,
        decreases a.len() - i,
    {
        if !a[i].same_as(&b[i]) {
            proof {
                assert(usage_views(a@)[i as int] != usage_views(b@)[i as int]);
            }
            return false;
        }
        i += 1;
    }
    proof {
        assert(usage_views(a@) =~= usage_views(b@));
    }
    true
}

impl Usage {
    /// Tests whether two usages are the same.
    pub fn same_as(&self, other: &Usage) -> (same: bool)
        ensures
            same == (self@ == other@),
    {
        same_texts(&self.targets_for_guesswork, &other.targets_for_guesswork) && self.resolved_as
            == other.resolved_as && self.debug_hint == other.debug_hint
    }
}

impl AltDefinition {
    /// Tests whether two definitions are the same.
    pub fn same_as(&self, other: &AltDefinition) -> (same: bool)
        ensures
            same == (self@ == other@),
    {
        same_texts(&self.official_path, &other.official_path) && self.symbol_type
            == other.symbol_type && same_usages(&self.derived_from, &other.derived_from)
            && same_usages(&self.usages, &other.usages) && self.full_range == other.full_range
            && self.declaration_range == other.declaration_range && self.definition_range
            == other.definition_range
    }
}


/// Tests whether a text holds no white space.
pub fn has_no_whitespace(text: &str) -> (plain: bool)
    ensures
        plain == crate::path_laws::no_whitespace(text@),
{
    let chars = crate::text::chars_of(text);
    let mut i: usize = 0;
    while i < chars.len()
        invariant
            i <= chars.len(),
            chars@ == text@,
            forall|j: int| 0 <= j < i ==> !crate::text::is_whitespace(#[trigger] chars@[j]),
        decreases chars.len() - i,
    {
        if crate::text::char_is_whitespace(chars[i]) {
            proof {
                assert(crate::text::is_whitespace(text@[i as int]));
            }
            return false;
        }
        i += 1;
    }
    true
}

/// Tests whether a text can be a component of a path.
pub fn can_be_component(text: &str) -> (fits: bool)
    ensures
        fits == crate::path_laws::is_component(text@),
{
    let chars = crate::text::chars_of(text);
    if chars.len() == 0 {
        return false;
    }
    let mut i: usize = 0;
    while i < chars.len()
        invariant
            i <= chars.len(),
            chars@ == text@,
            forall|j: int|
                0 <= j < i ==> #[trigger] chars@[j] != ':' && !crate::text::is_whitespace(chars@[j]),
        decreases chars.len() - i,
    {
        if chars[i] == ':' || crate::text::char_is_whitespace(chars[i]) {
            proof {
                assert(text@[i as int] == ':' || crate::text::is_whitespace(text@[i as int]));
            }
            return false;
        }
        i += 1;
    }
    true
}

impl Usage {
    /// Tests whether the usage is well formed: its first target, if it
    /// has one, holds no white space.
    pub fn is_well_formed(&self) -> (fits: bool)
        ensures
            fits == crate::laws::is_usage(self@),
    {
        if self.targets_for_guesswork.len() == 0 {
            true
        } else {
            has_no_whitespace(self.targets_for_guesswork[0].as_str())
        }
    }
}

impl AltDefinition {
    /// Tests whether the definition is well formed: its path has a
    /// component at least, each component is not empty and holds neither a
    /// colon nor white space, and each usage is well formed.
    pub fn is_well_formed(&self) -> (fits: bool)
        ensures
            fits == crate::laws::is_definition(self@),
    {
        if self.official_path.len() == 0 {
            return false;
        }
        let mut i: usize = 0;
        while i < self.official_path.len()
            invariant
                i <= self.official_path.len(),
                forall|j: int|
                    0 <= j < i ==> crate::path_laws::is_component(
                        #[trigger] texts(self.official_path@)[j],
                    ),
            decreases self.official_path.len() - i,
        {
            if !can_be_component(self.official_path[i].as_str()) {
                proof {
                    assert(!crate::path_laws::is_component(texts(self.official_path@)[i as int]));
                }
                return false;
            }
            i += 1;
        }
        let mut k: usize = 0;
        while k < self.usages.len()
            invariant
                k <= self.usages.len(),
                crate::path_laws::is_path(texts(self.official_path@)),
                forall|j: int|
                    0 <= j < k ==> crate::laws::is_usage(#[trigger] usage_views(self.usages@)[j]),
            decreases self.usages.len() - k,
        {
            if !self.usages[k].is_well_formed() {
                proof {
                    assert(usage_views(self.usages@)[k as int] == self.usages@[k as int]@);
                    assert(!crate::laws::is_usage(self@.usages[k as int]));
                }
                return false;
            }
            k += 1;
        }
        true
    }

    /// Tests whether the definition's path begins with the components
    /// that the path of a file gives.
    pub fn is_of_file(&self, cpath: &str) -> (fits: bool)
        ensures
            fits == begins_with_path(self@.official_path, crate::path::file_prefix(cpath@)),
    {
        let prefix = crate::path::filesystem_path_to_double_colon_path(cpath);
        if prefix.len() > self.official_path.len() {
            return false;
        }
        let mut i: usize = 0;
        while i < prefix.len()
            invariant
                i <= prefix.len() <= self.official_path.len(),
                texts(prefix@) == crate::path::file_prefix(cpath@),
                forall|j: int|
                    0 <= j < i ==> #[trigger] texts(self.official_path@)[j] == texts(prefix@)[j],
            decreases prefix.len() - i,
        {
            if self.official_path[i] != prefix[i] {
                proof {
                    assert(texts(self.official_path@)[i as int] != texts(prefix@)[i as int]);
                }
                return false;
            }
            i += 1;
        }
        true
    }
}

/// Whether a path begins with the given components.
pub open spec fn begins_with_path(path: Seq<Seq<char>>, lead: Seq<Seq<char>>) -> bool {
    lead.len() <= path.len() && forall|i: int| 0 <= i < lead.len() ==> #[trigger] path[i] == lead[i]
}

} // verus!
