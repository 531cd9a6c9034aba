//! Tickets: the edits that a reply asks for, each under a pin.

use vstd::prelude::*;
use vstd::string::StringExecFns;
use crate::text::{
    chars_of,
    find,
    find_from,
    rows,
    slice_of,
    split,
    split_chars,
    string_of_chars,
    trim,
    trim_chars,
};

verus! {

/// What a ticket asks to do with its file.
#[derive(Default, Debug, Clone, Copy, PartialEq, Eq, Hash, Structural)]
pub enum PatchAction {
    #[default]
    PartialEdit,
    FullRewrite,
    NewFile,
    Other,
}

/// One edit that a reply asks for.
#[derive(Default, Debug, Clone, PartialEq, Eq)]
pub struct TicketToApply {
    pub action: PatchAction,
    pub ticket: String,
    pub filename_before: String,
    pub filename_after: String,
    pub code: String,
}

/// The action that a pinned word names.
pub open spec fn patch_action_named(action: Seq<char>) -> Option<PatchAction> {
    if action == "\u{1f4cd}PARTIAL_EDIT"@ {
        Some(PatchAction::PartialEdit)
    } else if action == "\u{1f4cd}FULL_REWRITE"@ {
        Some(PatchAction::FullRewrite)
    } else if action == "\u{1f4cd}NEW_FILE"@ {
        Some(PatchAction::NewFile)
    } else if action == "\u{1f4cd}OTHER"@ {
        Some(PatchAction::Other)
    } else {
        None
    }
}

/// What is said of a word that names no action.
pub open spec fn invalid_action_text(action: Seq<char>) -> Seq<char> {
    "invalid action: "@ + action
}

impl PatchAction {
    /// Reads an action from the word that names it: the pin U+1F4CD and the
    /// action's name in capitals.
    pub fn from_string(action: &str) -> (read: Result<PatchAction, String>)
        ensures
            match read {
                Ok(found) => patch_action_named(action@) == Some(found),
                Err(said) => patch_action_named(action@) is None && said@ == invalid_action_text(
                    action@,
                ),
            },
    {
        let word = String::from_str(action);
        if word == String::from_str("\u{1f4cd}PARTIAL_EDIT") {
            Ok(PatchAction::PartialEdit)
        } else if word == String::from_str("\u{1f4cd}FULL_REWRITE") {
            Ok(PatchAction::FullRewrite)
        } else if word == String::from_str("\u{1f4cd}NEW_FILE") {
            Ok(PatchAction::NewFile)
        } else if word == String::from_str("\u{1f4cd}OTHER") {
            Ok(PatchAction::Other)
        } else {
            let mut said = String::from_str("invalid action: ");
            said.append(action);
            Err(said)
        }
    }
}


/// A ticket as a mathematical value.
#[verifier::ext_equal]
pub struct TicketView {
    pub action: PatchAction,
    pub ticket: Seq<char>,
    pub filename_before: Seq<char>,
    pub filename_after: Seq<char>,
    pub code: Seq<char>,
}

impl View for TicketToApply {
    type V = TicketView;

    open spec fn view(&self) -> TicketView {
        TicketView {
            action: self.action,
            ticket: self.ticket@,
            filename_before: self.filename_before@,
            filename_after: self.filename_after@,
            code: self.code@,
        }
    }
}

/// The views of a sequence of tickets.
pub open spec fn ticket_views(tickets: Seq<TicketToApply>) -> Seq<TicketView> {
    tickets.map_values(|t: TicketToApply| t@)
}

/// The pin that opens the line of a ticket.
pub open spec fn pin() -> Seq<char> {
    seq!['\u{1f4cd}']
}

/// The fence that opens and closes a block of code.
pub open spec fn fence() -> Seq<char> {
    seq!['`', '`', '`']
}

/// Whether `pat` occurs in `s`.
pub open spec fn contains(s: Seq<char>, pat: Seq<char>) -> bool {
    find_from(s, pat, 0) is Some
}

/// The line without the carriage return at its end, if it has one.
pub open spec fn strip_return(line: Seq<char>) -> Seq<char> {
    if line.len() > 0 && line.last() == '\r' {
        line.drop_last()
    } else {
        line
    }
}

/// The lines of a text. A line ends with a line feed, or with a carriage
/// return and a line feed; the last line need not end.
pub open spec fn lines_of(content: Seq<char>) -> Seq<Seq<char>> {
    let pieces = split(content, seq!['\n']);
    let ended = pieces.drop_last().map_values(|piece: Seq<char>| strip_return(piece));
    if pieces.last().len() == 0 {
        ended
    } else {
        ended.push(pieces.last())
    }
}

/// The first line at or after `from` that holds a fence.
pub open spec fn closing_fence(lines: Seq<Seq<char>>, from: int) -> Option<int>
    decreases lines.len() - from,
{
    if from < 0 || from >= lines.len() {
        None
    } else if contains(lines[from], fence()) {
        Some(from)
    } else {
        closing_fence(lines, from + 1)
    }
}

/// The lines from `from` up to `to`, each with a line feed after it.
pub open spec fn code_text(lines: Seq<Seq<char>>, from: int, to: int) -> Seq<char>
    decreases to - from,
{
    if from >= to {
        Seq::empty()
    } else {
        code_text(lines, from, to - 1) + lines[to - 1] + seq!['\n']
    }
}

/// The ticket whose line stands at `at`, and the line of its closing
/// fence.
///
/// The ticket's line, without the white space at its ends and cut at each
/// blank, must give three words at least: the action, the ticket's name
/// and the file. The next line must hold a fence, and a later line must
/// hold the closing one. The code is what stands between the two.
pub open spec fn snippet_at(lines: Seq<Seq<char>>, at: int) -> Option<(int, TicketView)> {
    let words = split(trim(lines[at]), seq![' ']);
    if words.len() < 3 {
        None
    } else {
        match patch_action_named(words[0]) {
            Some(action) => if at + 1 < lines.len() && contains(lines[at + 1], fence()) {
                match closing_fence(lines, at + 2) {
                    Some(end) => Some(
                        (
                            end,
                            TicketView {
                                action,
                                ticket: words[1],
                                filename_before: words[2],
                                filename_after: Seq::empty(),
                                code: code_text(lines, at + 2, end),
                            },
                        ),
                    ),
                    None => None,
                }
            } else {
                None
            },
            None => None,
        }
    }
}

/// The tickets in the lines from `at` on. After a ticket the search goes
/// on at the second line after its closing fence. A line with a pin that
/// opens no ticket is passed over.
pub open spec fn snippets_from(lines: Seq<Seq<char>>, at: int) -> Seq<TicketView>
    decreases lines.len() + 2 - at,
{
    if at < 0 || at >= lines.len() {
        Seq::empty()
    } else if contains(lines[at], pin()) {
        match snippet_at(lines, at) {
            Some((end, ticket)) => if at < end < lines.len() {
                seq![ticket] + snippets_from(lines, end + 2)
            } else {
                seq![ticket]
            },
            None => snippets_from(lines, at + 1),
        }
    } else {
        snippets_from(lines, at + 1)
    }
}

/// The tickets in a text.
pub open spec fn snippets_of(content: Seq<char>) -> Seq<TicketView> {
    snippets_from(lines_of(content), 0)
}

/// Tests whether `pat` occurs in `s`.
pub fn holds(s: &Vec<char>, pat: &Vec<char>) -> (found: bool)
    ensures
        found == contains(s@, pat@),
{
    find(s, pat, 0).is_some()
}

/// Cuts a text into its lines.
pub fn lines(content: &str) -> (out: Vec<Vec<char>>)
    ensures
        rows(out@) == lines_of(content@),
{
    let chars = chars_of(content);
    let mut feed: Vec<char> = Vec::new();
    feed.push('\n');
    proof {
        assert(feed@ =~= seq!['\n']);
        crate::keys::lemma_split_not_empty(chars@, feed@, 0);
    }
    let pieces = split_chars(&chars, &feed);
    let ghost all = rows(pieces@);
    let ghost ended = all.drop_last().map_values(|piece: Seq<char>| strip_return(piece));
    let mut out: Vec<Vec<char>> = Vec::new();
    let mut i: usize = 0;
    while i + 1 < pieces.len()
        invariant
            pieces.len() >= 1,
            i + 1 <= pieces.len(),
            all == rows(pieces@),
            ended == all.drop_last().map_values(|piece: Seq<char>| strip_return(piece)),
            rows(out@) == ended.take(i as int),
        decreases pieces.len() - i,
    {
        let piece = &pieces[i];
        let ghost so_far = rows(out@);
        let n = piece.len();
        if n > 0 && piece[n - 1] == '\r' {
            out.push(slice_of(piece, 0, n - 1));
            proof {
                assert(piece@.subrange(0, n - 1) =~= piece@.drop_last());
            }
        } else {
            out.push(slice_of(piece, 0, n));
            proof {
                assert(piece@.subrange(0, n as int) =~= piece@);
            }
        }
        proof {
            assert(all.drop_last()[i as int] == piece@);
            assert(rows(out@) =~= so_far.push(strip_return(piece@)));
            assert(rows(out@) =~= ended.take(i + 1));
        }
        i += 1;
    }
    proof {
        assert(ended.take(i as int) =~= ended);
    }
    let last = &pieces[pieces.len() - 1];
    if last.len() > 0 {
        let ghost so_far = rows(out@);
        out.push(slice_of(last, 0, last.len()));
        proof {
            assert(last@.subrange(0, last.len() as int) =~= last@);
            assert(rows(out@) =~= so_far.push(last@));
        }
    }
    out
}

/// Reads the ticket whose line stands at `at`.
#[verifier::loop_isolation(false)]
pub fn read_snippet(text_lines: &Vec<Vec<char>>, at: usize) -> (read: Option<(usize, TicketToApply)>)
    requires
        at < text_lines.len(),
    ensures
        match read {
            Some((end, ticket)) => snippet_at(rows(text_lines@), at as int) == Some(
                (end as int, ticket@),
            ) && at < end < text_lines.len(),
            None => snippet_at(rows(text_lines@), at as int) is None,
        },
{
    let ghost all = rows(text_lines@);
    let mut blank: Vec<char> = Vec::new();
    blank.push(' ');
    let mut ticks: Vec<char> = Vec::new();
    ticks.push('`');
    ticks.push('`');
    ticks.push('`');
    proof {
        assert(blank@ =~= seq![' ']);
        assert(ticks@ =~= fence());
        assert(all[at as int] == text_lines@[at as int]@);
    }
    let trimmed = trim_chars(&text_lines[at]);
    let words = split_chars(&trimmed, &blank);
    proof {
        assert(rows(words@).len() == words.len());
    }
    if words.len() < 3 {
        return None;
    }
    proof {
        assert(rows(words@)[0] == words@[0]@);
        assert(rows(words@)[1] == words@[1]@);
        assert(rows(words@)[2] == words@[2]@);
    }
    let first = string_of_chars(&words[0]);
    let action = match PatchAction::from_string(first.as_str()) {
        Ok(action) => action,
        Err(_) => {
            return None;
        },
    };
    if at + 1 >= text_lines.len() {
        return None;
    }
    proof {
        assert(all[at + 1] == text_lines@[at + 1]@);
    }
    if !holds(&text_lines[at + 1], &ticks) {
        return None;
    }
    let name = string_of_chars(&words[1]);
    let filename_before = string_of_chars(&words[2]);
    let mut code: Vec<char> = Vec::new();
    let mut end: usize = at + 2;
    while end < text_lines.len()
        invariant
            at + 2 <= end <= text_lines.len(),
            all == rows(text_lines@),
            ticks@ == fence(),
            closing_fence(all, at + 2) == closing_fence(all, end as int),
            code@ == code_text(all, at + 2, end as int),
        decreases text_lines.len() - end,
    {
        proof {
            assert(all[end as int] == text_lines@[end as int]@);
        }
        if holds(&text_lines[end], &ticks) {
            let ticket = TicketToApply {
                action,
                ticket: name,
                filename_before,
                filename_after: String::new(),
                code: string_of_chars(&code),
            };
            return Some((end, ticket));
        }
        let line = &text_lines[end];
        let ghost before = code@;
        let mut k: usize = 0;
        while k < line.len()
            invariant
                k <= line.len(),
                code@ == before + line@.take(k as int),
            decreases line.len() - k,
        {
            code.push(line[k]);
            k += 1;
            proof {
                assert(code@ =~= before + line@.take(k as int));
            }
        }
        code.push('\n');
        end += 1;
        proof {
            assert(line@.take(line.len() as int) =~= line@);
            assert(code@ =~= code_text(all, at + 2, end as int));
        }
    }
    None
}

/// Reads the tickets in a text.
pub fn parse_snippets(content: &str) -> (blocks: Vec<TicketToApply>)
    ensures
        ticket_views(blocks@) == snippets_of(content@),
{
    let text_lines = lines(content);
    let ghost all = rows(text_lines@);
    let mut marker: Vec<char> = Vec::new();
    marker.push('\u{1f4cd}');
    proof {
        assert(marker@ =~= pin());
    }
    let mut blocks: Vec<TicketToApply> = Vec::new();
    let mut line_num: usize = 0;
    while line_num < text_lines.len()
        invariant
            all == rows(text_lines@),
            marker@ == pin(),
            snippets_of(content@) == ticket_views(blocks@) + snippets_from(all, line_num as int),
        decreases text_lines.len() - line_num,
    {
        proof {
            assert(all[line_num as int] == text_lines@[line_num as int]@);
        }
        if holds(&text_lines[line_num], &marker) {
            match read_snippet(&text_lines, line_num) {
                Some((end, ticket)) => {
                    let ghost so_far = ticket_views(blocks@);
                    blocks.push(ticket);
                    let next: usize = if text_lines.len() - end <= 2 {
                        text_lines.len()
                    } else {
                        end + 2
                    };
                    proof {
                        assert(ticket_views(blocks@) =~= so_far.push(ticket@));
                        assert(snippets_from(all, end + 2) =~= snippets_from(all, next as int));
                        assert(snippets_of(content@) =~= ticket_views(blocks@) + snippets_from(
                            all,
                            next as int,
                        ));
                    }
                    line_num = next;
                },
                None => {
                    line_num += 1;
                },
            }
        } else {
            line_num += 1;
        }
    }
    proof {
        assert(snippets_from(all, line_num as int) =~= Seq::<TicketView>::empty());
    }
    blocks
}

} // verus!
