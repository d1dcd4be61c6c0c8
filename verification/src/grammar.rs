//! The Modelfile grammar: a document is one or more commands, each an
//! instruction keyword (matched without regard to ASCII case) followed by an
//! argument in one of three forms, tried in this order:
//!
//! 1. a triple-quoted block `"""..."""`, which may span lines;
//! 2. a single-quoted string `"..."`, which may not contain a quote;
//! 3. a bare line: everything up to the next newline, trimmed of
//!    surrounding whitespace.
//!
//! Whitespace between commands is insignificant and may be empty. Parsing
//! fails on empty input, on an unrecognized keyword, on an unterminated
//! quoted argument, and on any input left over after the last command.
//!
//! `spec_parse_document` is the grammar's definition; `parse_document` is
//! the executable parser, proved to return exactly what the definition says.

use vstd::prelude::*;

use crate::text::{
    is_space_char, line_end, matches_ci_at, skip_ws, trim_back, is_space_char_exec,
    line_end_exec, matches_ci, skip_ws_exec, trim_back_exec, lemma_line_end_bounds,
    lemma_skip_ws_bounds, lemma_trim_back_bounds,
};

verus! {

/// The eight instruction keywords. `Source` is the `FROM` instruction;
/// `Comment` is the `#` instruction, preserved in the command sequence but
/// carrying no semantics.
#[derive(Clone, Copy, Debug, PartialEq, Eq, Structural)]
pub enum Instruction {
    Source,
    Parameter,
    Template,
    System,
    Adapter,
    License,
    Message,
    Comment,
}

/// One parsed command: an instruction and its raw argument text.
#[derive(Debug)]
pub struct Command {
    pub instruction: Instruction,
    pub argument: String,
}

/// Mathematical image of a [`Command`].
pub struct CommandV {
    pub instruction: Instruction,
    pub argument: Seq<char>,
}

impl View for Command {
    type V = CommandV;

    open spec fn view(&self) -> CommandV {
        CommandV { instruction: self.instruction, argument: self.argument@ }
    }
}

pub open spec fn cmds_view(cs: Seq<Command>) -> Seq<CommandV> {
    cs.map_values(|c: Command| c@)
}

/// A parse failure: the document is malformed.
#[derive(Clone, Copy, Debug, PartialEq, Eq, Structural)]
pub enum ParseError {
    Syntax,
}

// ---------------------------------------------------------------------------
// Keywords
// ---------------------------------------------------------------------------

/// The keyword (and the position after it) found at `i`, if any. Keywords
/// are matched without regard to ASCII case, in the grammar's listed order.
pub open spec fn keyword_at(s: Seq<char>, i: int) -> Option<(Instruction, int)> {
    if matches_ci_at(s, i, "from"@) {
        Some((Instruction::Source, i + "from"@.len()))
    } else if matches_ci_at(s, i, "parameter"@) {
        Some((Instruction::Parameter, i + "parameter"@.len()))
    } else if matches_ci_at(s, i, "template"@) {
        Some((Instruction::Template, i + "template"@.len()))
    } else if matches_ci_at(s, i, "system"@) {
        Some((Instruction::System, i + "system"@.len()))
    } else if matches_ci_at(s, i, "adapter"@) {
        Some((Instruction::Adapter, i + "adapter"@.len()))
    } else if matches_ci_at(s, i, "license"@) {
        Some((Instruction::License, i + "license"@.len()))
    } else if matches_ci_at(s, i, "message"@) {
        Some((Instruction::Message, i + "message"@.len()))
    } else if 0 <= i < s.len() && s[i] == '#' {
        Some((Instruction::Comment, i + 1))
    } else {
        None
    }
}

proof fn lemma_keyword_at_bounds(s: Seq<char>, i: int)
    requires
        0 <= i <= s.len(),
        keyword_at(s, i) is Some,
    ensures
        keyword_at(s, i) matches Some(p) ==> i < p.1 <= s.len(),
{
    reveal_strlit("from");
    reveal_strlit("parameter");
    reveal_strlit("template");
    reveal_strlit("system");
    reveal_strlit("adapter");
    reveal_strlit("license");
    reveal_strlit("message");
}

fn keyword_at_exec(s: &str, i: usize) -> (r: Option<(Instruction, usize)>)
    requires
        i <= s@.len(),
    ensures
        r matches Some(p) ==> keyword_at(s@, i as int) == Some((p.0, p.1 as int)) && i < p.1
            <= s@.len(),
        r is None ==> keyword_at(s@, i as int) is None,
{
    proof {
        reveal_strlit("from");
        reveal_strlit("parameter");
        reveal_strlit("template");
        reveal_strlit("system");
        reveal_strlit("adapter");
        reveal_strlit("license");
        reveal_strlit("message");
    }
    let n = s.unicode_len();
    if matches_ci(s, i, "from") {
        Some((Instruction::Source, i + 4))
    } else if matches_ci(s, i, "parameter") {
        Some((Instruction::Parameter, i + 9))
    } else if matches_ci(s, i, "template") {
        Some((Instruction::Template, i + 8))
    } else if matches_ci(s, i, "system") {
        Some((Instruction::System, i + 6))
    } else if matches_ci(s, i, "adapter") {
        Some((Instruction::Adapter, i + 7))
    } else if matches_ci(s, i, "license") {
        Some((Instruction::License, i + 7))
    } else if matches_ci(s, i, "message") {
        Some((Instruction::Message, i + 7))
    } else if i < n && s.get_char(i) == '#' {
        Some((Instruction::Comment, i + 1))
    } else {
        None
    }
}

// ---------------------------------------------------------------------------
// Arguments
// ---------------------------------------------------------------------------

/// A `"""` delimiter sits at position `i`.
pub open spec fn triple_at(s: Seq<char>, i: int) -> bool {
    0 <= i && i + 3 <= s.len() && s[i] == '"' && s[i + 1] == '"' && s[i + 2] == '"'
}

/// First position at or after `i` where a `"""` delimiter sits.
pub open spec fn find_triple(s: Seq<char>, i: int) -> Option<int>
    recommends
        0 <= i <= s.len(),
    decreases s.len() - i when 0 <= i <= s.len()
{
    if i + 3 > s.len() {
        None
    } else if triple_at(s, i) {
        Some(i)
    } else {
        find_triple(s, i + 1)
    }
}

proof fn lemma_find_triple_bounds(s: Seq<char>, i: int)
    requires
        0 <= i <= s.len(),
    ensures
        find_triple(s, i) matches Some(j) ==> i <= j && j + 3 <= s.len() && triple_at(s, j),
    decreases s.len() - i,
{
    if i + 3 <= s.len() && !triple_at(s, i) {
        lemma_find_triple_bounds(s, i + 1);
    }
}

/// First position at or after `i` holding a quote character.
pub open spec fn find_quote(s: Seq<char>, i: int) -> Option<int>
    recommends
        0 <= i <= s.len(),
    decreases s.len() - i when 0 <= i <= s.len()
{
    if i >= s.len() {
        None
    } else if s[i] == '"' {
        Some(i)
    } else {
        find_quote(s, i + 1)
    }
}

proof fn lemma_find_quote_bounds(s: Seq<char>, i: int)
    requires
        0 <= i <= s.len(),
    ensures
        find_quote(s, i) matches Some(j) ==> i <= j < s.len() && s[j] == '"',
    decreases s.len() - i,
{
    if i < s.len() && s[i] != '"' {
        lemma_find_quote_bounds(s, i + 1);
    }
}

/// The argument beginning at `i` (and the position after it), if any: a
/// triple-quoted block, else a single-quoted string, else a bare line. An
/// opening quote commits to its form: left unclosed, the argument is
/// malformed no matter what follows.
pub open spec fn argument_at(s: Seq<char>, i: int) -> Option<(Seq<char>, int)>
    recommends
        0 <= i <= s.len(),
{
    if triple_at(s, i) {
        match find_triple(s, i + 3) {
            Some(j) => Some((s.subrange(i + 3, j), j + 3)),
            None => None,
        }
    } else if 0 <= i < s.len() && s[i] == '"' {
        match find_quote(s, i + 1) {
            Some(j) => Some((s.subrange(i + 1, j), j + 1)),
            None => None,
        }
    } else if 0 <= i < s.len() && !is_space_char(s[i]) {
        Some((s.subrange(i, trim_back(s, i, line_end(s, i))), line_end(s, i)))
    } else {
        None
    }
}

proof fn lemma_argument_at_bounds(s: Seq<char>, i: int)
    requires
        0 <= i <= s.len(),
    ensures
        argument_at(s, i) matches Some(p) ==> i < p.1 <= s.len(),
{
    if triple_at(s, i) {
        lemma_find_triple_bounds(s, i + 3);
    } else if 0 <= i < s.len() && s[i] == '"' {
        lemma_find_quote_bounds(s, i + 1);
    } else if 0 <= i < s.len() && !is_space_char(s[i]) {
        lemma_line_end_bounds(s, i + 1);
        assert(line_end(s, i) == line_end(s, i + 1));
        lemma_trim_back_bounds(s, i, line_end(s, i));
    }
}

fn triple_at_exec(s: &str, i: usize) -> (r: bool)
    requires
        i <= s@.len(),
    ensures
        r == triple_at(s@, i as int),
{
    let n = s.unicode_len();
    n - i >= 3 && s.get_char(i) == '"' && s.get_char(i + 1) == '"' && s.get_char(i + 2) == '"'
}

fn find_triple_exec(s: &str, i: usize) -> (r: Option<usize>)
    requires
        i <= s@.len(),
    ensures
        r matches Some(j) ==> find_triple(s@, i as int) == Some(j as int) && i <= j && j + 3
            <= s@.len(),
        r is None ==> find_triple(s@, i as int) is None,
{
    let n = s.unicode_len();
    let mut j = i;
    while n - j >= 3 && !triple_at_exec(s, j)
        invariant
            i <= j,
            j <= n,
            n == s@.len(),
            find_triple(s@, i as int) == find_triple(s@, j as int),
        decreases n - j,
    {
        j = j + 1;
    }
    if n - j >= 3 {
        Some(j)
    } else {
        None
    }
}

fn find_quote_exec(s: &str, i: usize) -> (r: Option<usize>)
    requires
        i <= s@.len(),
    ensures
        r matches Some(j) ==> find_quote(s@, i as int) == Some(j as int) && i <= j && j
            < s@.len(),
        r is None ==> find_quote(s@, i as int) is None,
{
    let n = s.unicode_len();
    let mut j = i;
    while j < n && s.get_char(j) != '"'
        invariant
            i <= j,
            j <= n,
            n == s@.len(),
            find_quote(s@, i as int) == find_quote(s@, j as int),
        decreases n - j,
    {
        j = j + 1;
    }
    if j < n {
        Some(j)
    } else {
        None
    }
}

fn argument_at_exec(s: &str, i: usize) -> (r: Option<(String, usize)>)
    requires
        i <= s@.len(),
    ensures
        r matches Some(p) ==> argument_at(s@, i as int) == Some((p.0@, p.1 as int)) && i < p.1
            <= s@.len(),
        r is None ==> argument_at(s@, i as int) is None,
{
    proof {
        lemma_argument_at_bounds(s@, i as int);
    }
    let n = s.unicode_len();
    if triple_at_exec(s, i) {
        match find_triple_exec(s, i + 3) {
            Some(j) => {
                let body = s.substring_char(i + 3, j).to_owned();
                Some((body, j + 3))
            },
            None => None,
        }
    } else if i < n && s.get_char(i) == '"' {
        match find_quote_exec(s, i + 1) {
            Some(j) => {
                let body = s.substring_char(i + 1, j).to_owned();
                Some((body, j + 1))
            },
            None => None,
        }
    } else if i < n && !is_space_char_exec(s.get_char(i)) {
        let e = line_end_exec(s, i);
        let t = trim_back_exec(s, i, e);
        let body = s.substring_char(i, t).to_owned();
        Some((body, e))
    } else {
        None
    }
}

// ---------------------------------------------------------------------------
// Documents
// ---------------------------------------------------------------------------

/// Commands from position `i` to the end: whitespace, then either the end
/// of input or a command followed by the rest. `None` is a syntax failure.
pub open spec fn parse_from(s: Seq<char>, i: int) -> Option<Seq<CommandV>>
    recommends
        0 <= i <= s.len(),
    decreases s.len() - i when 0 <= i <= s.len() via parse_from_decreases
{
    let j = skip_ws(s, i);
    if j == s.len() {
        Some(Seq::empty())
    } else {
        match keyword_at(s, j) {
            None => None,
            Some(kw) => {
                let j2 = skip_ws(s, kw.1);
                match argument_at(s, j2) {
                    None => None,
                    Some(arg) => match parse_from(s, arg.1) {
                        None => None,
                        Some(rest) => Some(
                            seq![CommandV { instruction: kw.0, argument: arg.0 }] + rest,
                        ),
                    },
                }
            },
        }
    }
}

#[via_fn]
proof fn parse_from_decreases(s: Seq<char>, i: int) {
    lemma_skip_ws_bounds(s, i);
    let j = skip_ws(s, i);
    if j < s.len() {
        match keyword_at(s, j) {
            None => {},
            Some(kw) => {
                lemma_keyword_at_bounds(s, j);
                lemma_skip_ws_bounds(s, kw.1);
                let j2 = skip_ws(s, kw.1);
                lemma_argument_at_bounds(s, j2);
            },
        }
    }
}

/// What parsing a whole document yields: its command sequence, or nothing
/// when the document is malformed. Empty (or all-whitespace) input is
/// malformed: a document holds at least one command.
pub open spec fn spec_parse_document(s: Seq<char>) -> Option<Seq<CommandV>> {
    if skip_ws(s, 0) == s.len() {
        None
    } else {
        parse_from(s, 0)
    }
}

/// A failed parse consumes nothing and an accepted parse is total, so the
/// very first unrecognized keyword dooms the whole document.
pub proof fn lemma_unrecognized_keyword_fails(s: Seq<char>)
    requires
        skip_ws(s, 0) < s.len(),
        keyword_at(s, skip_ws(s, 0)) is None,
    ensures
        spec_parse_document(s) is None,
{
    lemma_skip_ws_bounds(s, 0);
    let j = skip_ws(s, 0);
    assert(skip_ws(s, j) == j);
}

spec fn prepend_cmds(pre: Seq<CommandV>, rest: Option<Seq<CommandV>>) -> Option<Seq<CommandV>> {
    match rest {
        None => None,
        Some(r) => Some(pre + r),
    }
}

/// Parses a Modelfile document into its command sequence.
///
/// Returns exactly what [`spec_parse_document`] says: `Err(Syntax)` when
/// the grammar rejects the text — in particular on empty input — and the
/// full command sequence otherwise.
pub fn parse_document(s: &str) -> (r: Result<Vec<Command>, ParseError>)
    ensures
        (r matches Ok(cmds) ==> spec_parse_document(s@) == Some(cmds_view(cmds@))),
        (r is Err ==> spec_parse_document(s@) is None),
        s@.len() == 0 ==> r is Err,
{
    let n = s.unicode_len();
    let start = skip_ws_exec(s, 0);
    if start == n {
        return Err(ParseError::Syntax);
    }
    let mut cmds: Vec<Command> = Vec::new();
    let mut i: usize = 0;
    loop
        invariant
            i <= n,
            n == s@.len(),
            skip_ws(s@, 0) < s@.len(),
            prepend_cmds(cmds_view(cmds@), parse_from(s@, i as int)) == parse_from(s@, 0),
        decreases n - i,
    {
        let j = skip_ws_exec(s, i);
        if j == n {
            proof {
                assert(parse_from(s@, i as int) == Some(Seq::<CommandV>::empty()));
                assert(cmds_view(cmds@) + Seq::<CommandV>::empty() =~= cmds_view(cmds@));
            }
            return Ok(cmds);
        }
        match keyword_at_exec(s, j) {
            None => {
                proof {
                    assert(parse_from(s@, i as int) is None);
                }
                return Err(ParseError::Syntax);
            },
            Some((ins, j2)) => {
                let j3 = skip_ws_exec(s, j2);
                match argument_at_exec(s, j3) {
                    None => {
                        proof {
                            assert(parse_from(s@, i as int) is None);
                        }
                        return Err(ParseError::Syntax);
                    },
                    Some((arg, j4)) => {
                        let ghost old_cmds = cmds@;
                        let ghost cv = CommandV { instruction: ins, argument: arg@ };
                        cmds.push(Command { instruction: ins, argument: arg });
                        proof {
                            assert(cmds_view(cmds@) =~= cmds_view(old_cmds) + seq![cv]);
                            assert(parse_from(s@, i as int) == prepend_cmds(
                                seq![cv],
                                parse_from(s@, j4 as int),
                            ));
                            match parse_from(s@, j4 as int) {
                                None => {},
                                Some(rest) => {
                                    assert((cmds_view(old_cmds) + seq![cv]) + rest =~= cmds_view(
                                        old_cmds,
                                    ) + (seq![cv] + rest));
                                },
                            }
                        }
                        i = j4;
                    },
                }
            },
        }
    }
}

} // verus!
