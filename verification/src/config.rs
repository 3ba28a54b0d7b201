use vstd::prelude::*;

use crate::strutil::{
    contains_char, end_trim, find_char, lemma_find_char_props, lemma_next_token_start_range,
    lemma_token_end_range, next_token_start, token_end,
};

verus! {

/// The three named sections of the startup file.
#[derive(Clone, Copy, PartialEq, Eq, Structural, Debug)]
pub enum Section {
    Path,
    Exports,
    Aliases,
}

/// The identifier token that introduces a section.
pub open spec fn section_kw(sec: Section) -> Seq<char> {
    match sec {
        Section::Path => seq!['P', 'A', 'T', 'H'],
        Section::Exports => seq!['E', 'X', 'P', 'O', 'R', 'T', 'S'],
        Section::Aliases => seq!['A', 'L', 'I', 'A', 'S', 'E', 'S'],
    }
}

/// What went wrong in the startup file, at the level of the grammar.
#[derive(Debug, PartialEq, Eq, Clone)]
pub enum ParseIssue {
    /// A section identifier occurred although that section was already closed once.
    AlreadySet(Section),
    /// A section identifier was not immediately followed by `{`.
    MissingOpen(Section),
    /// A section identifier occurred while another section was still open.
    StillOpen(Section, Section),
    /// `}` occurred with no section open.
    StrayClose,
    /// `{` occurred without a preceding section identifier.
    StrayOpen,
    /// A token occurred outside every section.
    UnexpectedToken(String),
    /// An alias line held no `=`.
    BadAliasLine(String),
    /// End of file was reached with this section still open.
    UnclosedAtEof(Section),
}

/// Spec-level mirror of `ParseIssue`, over character sequences.
pub enum IssueV {
    AlreadySet(Section),
    MissingOpen(Section),
    StillOpen(Section, Section),
    StrayClose,
    StrayOpen,
    UnexpectedToken(Seq<char>),
    BadAliasLine(Seq<char>),
    UnclosedAtEof(Section),
}

impl View for ParseIssue {
    type V = IssueV;

    open spec fn view(&self) -> IssueV {
        match self {
            ParseIssue::AlreadySet(sec) => IssueV::AlreadySet(*sec),
            ParseIssue::MissingOpen(sec) => IssueV::MissingOpen(*sec),
            ParseIssue::StillOpen(open, found) => IssueV::StillOpen(*open, *found),
            ParseIssue::StrayClose => IssueV::StrayClose,
            ParseIssue::StrayOpen => IssueV::StrayOpen,
            ParseIssue::UnexpectedToken(t) => IssueV::UnexpectedToken(t@),
            ParseIssue::BadAliasLine(t) => IssueV::BadAliasLine(t@),
            ParseIssue::UnclosedAtEof(sec) => IssueV::UnclosedAtEof(*sec),
        }
    }
}

/// An error raised while loading the startup file.  Parse errors carry the
/// 1-based line number on which they were found; `Nul` reports an interior
/// NUL byte in an exports entry or an alias key.
#[derive(Debug, PartialEq, Eq, Clone)]
pub enum Error {
    Parse(ParseIssue, usize),
    Nul(usize),
}

/// Spec-level mirror of `Error`.
pub enum ErrorV {
    Parse(IssueV, int),
    Nul(int),
}

impl View for Error {
    type V = ErrorV;

    open spec fn view(&self) -> ErrorV {
        match self {
            Error::Parse(issue, ln) => ErrorV::Parse(issue@, *ln as int),
            Error::Nul(ln) => ErrorV::Nul(*ln as int),
        }
    }
}

/// One alias: a key token and its pre-encoded replacement, in which the
/// sub-tokens are separated by NUL and a trailing NUL closes the buffer.
#[derive(Debug, PartialEq, Eq, Clone)]
pub struct Alias {
    pub key: String,
    pub replacement: String,
}

/// Spec-level mirror of `Alias`.
pub struct AliasV {
    pub key: Seq<char>,
    pub replacement: Seq<char>,
}

impl View for Alias {
    type V = AliasV;

    open spec fn view(&self) -> AliasV {
        AliasV { key: self.key@, replacement: self.replacement@ }
    }
}

/// The views of a sequence of aliases.
pub open spec fn aliases_view(s: Seq<Alias>) -> Seq<AliasV> {
    s.map_values(|a: Alias| a@)
}

/// The configuration loaded from the startup file: search directories in
/// priority order, exported `NAME=VALUE` strings, and the alias table.
#[derive(Debug, PartialEq, Eq, Clone)]
pub struct Settings {
    pub path: Vec<String>,
    pub exports: Vec<String>,
    pub aliases: Vec<Alias>,
}

/// Spec-level mirror of `Settings`.
pub struct SettingsV {
    pub path: Seq<Seq<char>>,
    pub exports: Seq<Seq<char>>,
    pub aliases: Seq<AliasV>,
}

impl View for Settings {
    type V = SettingsV;

    open spec fn view(&self) -> SettingsV {
        SettingsV {
            path: self.path.deep_view(),
            exports: self.exports.deep_view(),
            aliases: aliases_view(self.aliases@),
        }
    }
}

/// The parser's state between tokens.
pub struct MachineV {
    /// The section whose identifier was last seen and which is not closed yet.
    pub cur: Option<Section>,
    /// The identifier was seen but its `{` has not arrived yet.
    pub expected_open: bool,
    pub visited_path: bool,
    pub visited_exports: bool,
    pub visited_aliases: bool,
    pub path: Seq<Seq<char>>,
    pub exports: Seq<Seq<char>>,
    pub aliases: Seq<AliasV>,
}

pub open spec fn init_machine() -> MachineV {
    MachineV {
        cur: None,
        expected_open: false,
        visited_path: false,
        visited_exports: false,
        visited_aliases: false,
        path: Seq::empty(),
        exports: Seq::empty(),
        aliases: Seq::empty(),
    }
}

/// Whether `sec` was already opened and closed once.
pub open spec fn section_visited(st: MachineV, sec: Section) -> bool {
    match sec {
        Section::Path => st.visited_path,
        Section::Exports => st.visited_exports,
        Section::Aliases => st.visited_aliases,
    }
}

/// The state after the open section `sec` is closed by `}`.
pub open spec fn with_closed(st: MachineV, sec: Section) -> MachineV {
    MachineV {
        cur: None,
        visited_path: st.visited_path || sec == Section::Path,
        visited_exports: st.visited_exports || sec == Section::Exports,
        visited_aliases: st.visited_aliases || sec == Section::Aliases,
        ..st
    }
}

/// What a section identifier does to the state: a second occurrence of an
/// already closed section is rejected, as is an identifier while another
/// section is still open; otherwise the section opens and `{` is awaited.
pub open spec fn ident_result(st: MachineV, sec: Section, ln: int) -> Result<MachineV, ErrorV> {
    if section_visited(st, sec) {
        Err(ErrorV::Parse(IssueV::AlreadySet(sec), ln))
    } else {
        match st.cur {
            Some(open) => Err(ErrorV::Parse(IssueV::StillOpen(open, sec), ln)),
            None => Ok(MachineV { cur: Some(sec), expected_open: true, ..st }),
        }
    }
}

/// Replaces every space of an alias value by NUL and appends the trailing
/// NUL sentinel, making the stored replacement argv-ready.
pub open spec fn space_to_nul(c: char) -> char {
    if c == ' ' {
        '\0'
    } else {
        c
    }
}

pub open spec fn encode_alias_value(v: Seq<char>) -> Seq<char> {
    v.map_values(|c: char| space_to_nul(c)).push('\0')
}

/// The start of the first standalone `}` token at or after `from`, if any.
pub open spec fn find_close_tok(line: Seq<char>, from: int) -> Option<int>
    decreases line.len() - from when 0 <= from <= line.len() via find_close_tok_dec
{
    let s = next_token_start(line, from);
    if s >= line.len() {
        None
    } else {
        let e = token_end(line, s);
        if line.subrange(s, e) == seq!['}'] {
            Some(s)
        } else {
            find_close_tok(line, e)
        }
    }
}

#[via_fn]
proof fn find_close_tok_dec(line: Seq<char>, from: int) {
    lemma_next_token_start_range(line, from);
    let s = next_token_start(line, from);
    if s < line.len() {
        lemma_token_end_range(line, s + 1);
    }
}

/// Consumes an alias line.  The alias text runs from the token at `s` to the
/// first standalone `}` token, which also closes the section, or else to the
/// end of the line; trailing whitespace is dropped.  The text is split at its
/// first `=`: the left part is the key (which must hold no NUL), the right
/// part is encoded as the replacement.  The rest of the line is discarded.
pub open spec fn alias_step(st: MachineV, line: Seq<char>, s: int, ln: int) -> Result<
    MachineV,
    ErrorV,
> {
    let close = find_close_tok(line, s);
    let raw_end = match close {
        Some(j) => j,
        None => line.len() as int,
    };
    let closes = close is Some;
    let text = end_trim(line.subrange(s, raw_end));
    match find_char(text, '=', 0) {
        None => Err(ErrorV::Parse(IssueV::BadAliasLine(text), ln)),
        Some(k) => {
            let key = text.subrange(0, k);
            let value = text.subrange(k + 1, text.len() as int);
            if contains_char(key, '\0') {
                Err(ErrorV::Nul(ln))
            } else {
                Ok(
                    MachineV {
                        aliases: st.aliases.push(
                            AliasV { key, replacement: encode_alias_value(value) },
                        ),
                        cur: if closes {
                            None
                        } else {
                            st.cur
                        },
                        visited_aliases: if closes {
                            true
                        } else {
                            st.visited_aliases
                        },
                        ..st
                    },
                )
            }
        },
    }
}

/// Runs the parser over the tokens of one line, starting at position `pos`.
/// A standalone `#` discards the rest of the line.  While a `{` is awaited,
/// any other token is rejected, naming the section.  Section identifiers,
/// `{` and `}` drive the section structure; any other token is appended to
/// the open PATH or EXPORTS section (the latter rejecting NUL), begins an
/// alias line in an open ALIASES section, and is rejected outside a section.
pub open spec fn process_line_from(st: MachineV, line: Seq<char>, pos: int, ln: int) -> Result<
    MachineV,
    ErrorV,
>
    decreases line.len() - pos when 0 <= pos <= line.len() via process_line_from_dec
{
    let s = next_token_start(line, pos);
    if s >= line.len() {
        Ok(st)
    } else {
        let e = token_end(line, s);
        let tok = line.subrange(s, e);
        if tok == seq!['#'] {
            Ok(st)
        } else if st.expected_open {
            if tok == seq!['{'] {
                process_line_from(MachineV { expected_open: false, ..st }, line, e, ln)
            } else {
                let sec = match st.cur {
                    Some(sec) => sec,
                    None => Section::Path,
                };
                Err(ErrorV::Parse(IssueV::MissingOpen(sec), ln))
            }
        } else if tok == section_kw(Section::Path) || tok == section_kw(Section::Exports) || tok
            == section_kw(Section::Aliases) {
            let sec = if tok == section_kw(Section::Path) {
                Section::Path
            } else if tok == section_kw(Section::Exports) {
                Section::Exports
            } else {
                Section::Aliases
            };
            match ident_result(st, sec, ln) {
                Err(e0) => Err(e0),
                Ok(st2) => process_line_from(st2, line, e, ln),
            }
        } else if tok == seq!['}'] {
            match st.cur {
                None => Err(ErrorV::Parse(IssueV::StrayClose, ln)),
                Some(sec) => process_line_from(with_closed(st, sec), line, e, ln),
            }
        } else if tok == seq!['{'] {
            Err(ErrorV::Parse(IssueV::StrayOpen, ln))
        } else {
            match st.cur {
                None => Err(ErrorV::Parse(IssueV::UnexpectedToken(tok), ln)),
                Some(Section::Path) => process_line_from(
                    MachineV { path: st.path.push(tok), ..st },
                    line,
                    e,
                    ln,
                ),
                Some(Section::Exports) => {
                    if contains_char(tok, '\0') {
                        Err(ErrorV::Nul(ln))
                    } else {
                        process_line_from(
                            MachineV { exports: st.exports.push(tok), ..st },
                            line,
                            e,
                            ln,
                        )
                    }
                },
                Some(Section::Aliases) => alias_step(st, line, s, ln),
            }
        }
    }
}

#[via_fn]
proof fn process_line_from_dec(st: MachineV, line: Seq<char>, pos: int, ln: int) {
    lemma_next_token_start_range(line, pos);
    let s = next_token_start(line, pos);
    if s < line.len() {
        lemma_token_end_range(line, s + 1);
    }
}

/// Runs the parser over the remaining lines, numbering them from 1.
pub open spec fn run_from(st: MachineV, lines: Seq<Seq<char>>, i: int) -> Result<
    MachineV,
    ErrorV,
>
    decreases lines.len() - i when 0 <= i <= lines.len()
{
    if i >= lines.len() {
        Ok(st)
    } else {
        match process_line_from(st, lines[i], 0, i + 1) {
            Err(e) => Err(e),
            Ok(st2) => run_from(st2, lines, i + 1),
        }
    }
}

/// A line with a trailing carriage return loses it, as when text with
/// CRLF line ends is read line by line.
pub open spec fn strip_cr(l: Seq<char>) -> Seq<char> {
    if l.len() > 0 && l.last() == '\r' {
        l.drop_last()
    } else {
        l
    }
}

/// The lines of `text` from position `pos` on: pieces separated by `\n`,
/// each losing a trailing `\r`; no final empty line follows a final `\n`.
pub open spec fn lines_from(text: Seq<char>, pos: int) -> Seq<Seq<char>>
    decreases text.len() - pos when 0 <= pos <= text.len() via lines_from_dec
{
    if pos >= text.len() {
        Seq::empty()
    } else {
        match find_char(text, '\n', pos) {
            None => seq![text.subrange(pos, text.len() as int)],
            Some(k) => seq![strip_cr(text.subrange(pos, k))] + lines_from(text, k + 1),
        }
    }
}

#[via_fn]
proof fn lines_from_dec(text: Seq<char>, pos: int) {
    if 0 <= pos < text.len() {
        lemma_find_char_props(text, '\n', pos);
    }
}

pub open spec fn lines_of(text: Seq<char>) -> Seq<Seq<char>> {
    lines_from(text, 0)
}

/// What parsing the whole startup-file text yields: the accumulated
/// settings, or the first error; a section still open at end of file is an
/// error naming that section.
pub open spec fn spec_parse(text: Seq<char>) -> Result<SettingsV, ErrorV> {
    let lines = lines_of(text);
    match run_from(init_machine(), lines, 0) {
        Err(e) => Err(e),
        Ok(st) => match st.cur {
            Some(sec) => Err(
                ErrorV::Parse(IssueV::UnclosedAtEof(sec), lines.len() as int),
            ),
            None => Ok(SettingsV { path: st.path, exports: st.exports, aliases: st.aliases }),
        },
    }
}

/// The segments of the inherited search path: colon-separated pieces of
/// `s` from position `pos` on, kept verbatim, empty pieces included.
pub open spec fn split_colon_from(s: Seq<char>, pos: int) -> Seq<Seq<char>>
    decreases s.len() - pos when 0 <= pos <= s.len() via split_colon_from_dec
{
    match find_char(s, ':', pos) {
        None => seq![s.subrange(pos, s.len() as int)],
        Some(k) => seq![s.subrange(pos, k)] + split_colon_from(s, k + 1),
    }
}

#[via_fn]
proof fn split_colon_from_dec(s: Seq<char>, pos: int) {
    if 0 <= pos <= s.len() {
        lemma_find_char_props(s, ':', pos);
    }
}

pub open spec fn empty_settings() -> SettingsV {
    SettingsV { path: Seq::empty(), exports: Seq::empty(), aliases: Seq::empty() }
}

/// What loading the configuration yields.  An absent startup file is not an
/// error: parsing is skipped.  On success the segments of the inherited
/// search path, when one is set, are appended after the configured entries,
/// so that configured directories keep priority.
pub open spec fn spec_load(text: Option<Seq<char>>, inherited: Option<Seq<char>>) -> Result<
    SettingsV,
    ErrorV,
> {
    let base = match text {
        None => Ok(empty_settings()),
        Some(t) => spec_parse(t),
    };
    match base {
        Err(e) => Err(e),
        Ok(s) => Ok(
            SettingsV {
                path: s.path + match inherited {
                    None => Seq::<Seq<char>>::empty(),
                    Some(p) => split_colon_from(p, 0),
                },
                ..s
            },
        ),
    }
}

/// How an executable result relates to the specified one: same success or
/// failure, and the views agree.
pub open spec fn parse_matches(r: Result<Settings, Error>, s: Result<SettingsV, ErrorV>) -> bool {
    match (r, s) {
        (Ok(a), Ok(b)) => a@ == b,
        (Err(x), Err(y)) => x@ == y,
        _ => false,
    }
}

/// Whether the token `[from, to)` of `s` is the PATH keyword.
fn token_is_path_kw(s: &str, n: usize, from: usize, to: usize) -> (r: bool)
    requires
        n == s@.len(),
        from <= to <= n,
    ensures
        r == (s@.subrange(from as int, to as int) == section_kw(Section::Path)),
{
    let ghost tok = s@.subrange(from as int, to as int);
    if to - from != 4 {
        proof {
            assert(tok.len() == to - from);
            assert(section_kw(Section::Path).len() == 4);
        }
        return false;
    }
    let r = s.get_char(from) == 'P' && s.get_char(from + 1) == 'A' && s.get_char(from + 2) == 'T'
        && s.get_char(from + 3) == 'H';
    proof {
        if r {
            assert(tok =~= section_kw(Section::Path));
        } else {
            if tok == section_kw(Section::Path) {
                assert(tok[0] == 'P' && tok[1] == 'A' && tok[2] == 'T' && tok[3] == 'H');
                assert(false);
            }
        }
    }
    r
}

/// Whether the token `[from, to)` of `s` is the EXPORTS keyword.
fn token_is_exports_kw(s: &str, n: usize, from: usize, to: usize) -> (r: bool)
    requires
        n == s@.len(),
        from <= to <= n,
    ensures
        r == (s@.subrange(from as int, to as int) == section_kw(Section::Exports)),
{
    let ghost tok = s@.subrange(from as int, to as int);
    if to - from != 7 {
        proof {
            assert(tok.len() == to - from);
            assert(section_kw(Section::Exports).len() == 7);
        }
        return false;
    }
    let r = s.get_char(from) == 'E' && s.get_char(from + 1) == 'X' && s.get_char(from + 2) == 'P'
        && s.get_char(from + 3) == 'O' && s.get_char(from + 4) == 'R' && s.get_char(from + 5)
        == 'T' && s.get_char(from + 6) == 'S';
    proof {
        if r {
            assert(tok =~= section_kw(Section::Exports));
        } else {
            if tok == section_kw(Section::Exports) {
                assert(tok[0] == 'E' && tok[1] == 'X' && tok[2] == 'P' && tok[3] == 'O' && tok[4]
                    == 'R' && tok[5] == 'T' && tok[6] == 'S');
                assert(false);
            }
        }
    }
    r
}

/// Whether the token `[from, to)` of `s` is the ALIASES keyword.
fn token_is_aliases_kw(s: &str, n: usize, from: usize, to: usize) -> (r: bool)
    requires
        n == s@.len(),
        from <= to <= n,
    ensures
        r == (s@.subrange(from as int, to as int) == section_kw(Section::Aliases)),
{
    let ghost tok = s@.subrange(from as int, to as int);
    if to - from != 7 {
        proof {
            assert(tok.len() == to - from);
            assert(section_kw(Section::Aliases).len() == 7);
        }
        return false;
    }
    let r = s.get_char(from) == 'A' && s.get_char(from + 1) == 'L' && s.get_char(from + 2) == 'I'
        && s.get_char(from + 3) == 'A' && s.get_char(from + 4) == 'S' && s.get_char(from + 5)
        == 'E' && s.get_char(from + 6) == 'S';
    proof {
        if r {
            assert(tok =~= section_kw(Section::Aliases));
        } else {
            if tok == section_kw(Section::Aliases) {
                assert(tok[0] == 'A' && tok[1] == 'L' && tok[2] == 'I' && tok[3] == 'A' && tok[4]
                    == 'S' && tok[5] == 'E' && tok[6] == 'S');
                assert(false);
            }
        }
    }
    r
}

/// Splits text into its lines, as the parser numbers them.
pub fn split_lines(text: &str) -> (v: Vec<String>)
    ensures
        v.deep_view() == lines_of(text@),
{
    let n = text.unicode_len();
    let mut v: Vec<String> = Vec::new();
    let mut pos: usize = 0;
    while pos < n
        invariant
            pos <= n,
            n == text@.len(),
            lines_of(text@) == v.deep_view() + lines_from(text@, pos as int),
        decreases n - pos,
    {
        let ghost v_old = v.deep_view();
        match crate::strutil::find_char_at(text, n, '\n', pos) {
            Some(k) => {
                let le = if k > pos && text.get_char(k - 1) == '\r' {
                    k - 1
                } else {
                    k
                };
                let piece = text.substring_char(pos, le);
                v.push(String::from_str(piece));
                proof {
                    let raw = text@.subrange(pos as int, k as int);
                    if k > pos && text@[k - 1] == '\r' {
                        assert(raw.last() == text@[k - 1]);
                        assert(raw.drop_last() =~= text@.subrange(pos as int, le as int));
                    }
                    assert(strip_cr(raw) == text@.subrange(pos as int, le as int));
                    assert(v.deep_view() =~= v_old.push(piece@));
                    assert(lines_from(text@, pos as int) == seq![strip_cr(raw)] + lines_from(
                        text@,
                        k + 1,
                    ));
                    assert(v_old + lines_from(text@, pos as int) =~= v.deep_view() + lines_from(
                        text@,
                        k + 1,
                    ));
                }
                pos = k + 1;
            },
            None => {
                let piece = text.substring_char(pos, n);
                v.push(String::from_str(piece));
                proof {
                    assert(v.deep_view() =~= v_old.push(piece@));
                    assert(lines_from(text@, pos as int) == seq![
                        text@.subrange(pos as int, n as int),
                    ]);
                    assert(v_old + lines_from(text@, pos as int) =~= v.deep_view() + lines_from(
                        text@,
                        n as int,
                    ));
                }
                pos = n;
            },
        }
    }
    proof {
        assert(v.deep_view() + lines_from(text@, n as int) =~= v.deep_view());
    }
    v
}

/// Encodes an alias value into the stored replacement.
pub fn encode_value(value: &str) -> (r: String)
    ensures
        r@ == encode_alias_value(value@),
{
    let n = value.unicode_len();
    let mut buf: Vec<char> = Vec::new();
    let mut i: usize = 0;
    while i < n
        invariant
            i <= n,
            n == value@.len(),
            buf@ == value@.subrange(0, i as int).map_values(|c: char| space_to_nul(c)),
        decreases n - i,
    {
        let c = value.get_char(i);
        if c == ' ' {
            buf.push('\0');
        } else {
            buf.push(c);
        }
        proof {
            assert(buf@ =~= value@.subrange(0, i + 1).map_values(|c: char| space_to_nul(c)));
        }
        i = i + 1;
    }
    buf.push('\0');
    proof {
        assert(value@.subrange(0, n as int) =~= value@);
        assert(buf@ =~= encode_alias_value(value@));
    }
    crate::strutil::string_from_chars(&buf)
}

/// Finds the first standalone `}` token at or after `from`.
fn find_close_from(line: &str, n: usize, from: usize) -> (r: Option<usize>)
    requires
        n == line@.len(),
        from <= n,
    ensures
        match r {
            Some(j) => from <= j < n && find_close_tok(line@, from as int) == Some(j as int),
            None => find_close_tok(line@, from as int) is None,
        },
{
    let mut i: usize = from;
    let mut result: Option<usize> = None;
    loop
        invariant_except_break
            from <= i <= n,
            n == line@.len(),
            find_close_tok(line@, from as int) == find_close_tok(line@, i as int),
        ensures
            match result {
                Some(j) => from <= j < n && find_close_tok(line@, from as int) == Some(j as int),
                None => find_close_tok(line@, from as int) is None,
            },
        decreases n - i,
    {
        let s = crate::strutil::find_token_start(line, n, i);
        if s >= n {
            result = None;
            break;
        }
        let e = crate::strutil::find_token_end(line, n, s);
        if crate::strutil::token_is_char(line, n, s, e, '}') {
            result = Some(s);
            break;
        }
        proof {
            lemma_next_token_start_range(line@, i as int);
            lemma_token_end_range(line@, s + 1);
        }
        i = e;
    }
    result
}

/// The machine state assembled from the parser's working variables.
pub open spec fn m_state(
    cur: Option<Section>,
    eo: bool,
    vp: bool,
    ve: bool,
    va: bool,
    p: Seq<Seq<char>>,
    ex: Seq<Seq<char>>,
    al: Seq<AliasV>,
) -> MachineV {
    MachineV {
        cur,
        expected_open: eo,
        visited_path: vp,
        visited_exports: ve,
        visited_aliases: va,
        path: p,
        exports: ex,
        aliases: al,
    }
}

/// Parses the full text of the startup file.
pub fn parse_text(text: &str) -> (r: Result<Settings, Error>)
    ensures
        parse_matches(r, spec_parse(text@)),
{
    let lines = split_lines(text);
    let nlines = lines.len();
    let ghost linesv = lines.deep_view();
    let mut cur: Option<Section> = None;
    let mut expected_open = false;
    let mut vp = false;
    let mut ve = false;
    let mut va = false;
    let mut path: Vec<String> = Vec::new();
    let mut exports: Vec<String> = Vec::new();
    let mut aliases: Vec<Alias> = Vec::new();
    proof {
        assert(path.deep_view() =~= Seq::<Seq<char>>::empty());
        assert(aliases_view(aliases@) =~= Seq::<AliasV>::empty());
    }
    proof {
        assert(linesv.len() == lines@.len());
    }
    let mut li: usize = 0;
    while li < nlines
        invariant
            li <= nlines,
            nlines == lines@.len(),
            nlines == linesv.len(),
            linesv == lines.deep_view(),
            linesv == lines_of(text@),
            run_from(init_machine(), linesv, 0) == run_from(
                m_state(
                    cur,
                    expected_open,
                    vp,
                    ve,
                    va,
                    path.deep_view(),
                    exports.deep_view(),
                    aliases_view(aliases@),
                ),
                linesv,
                li as int,
            ),
        decreases nlines - li,
    {
        let ghost st_enter = m_state(
            cur,
            expected_open,
            vp,
            ve,
            va,
            path.deep_view(),
            exports.deep_view(),
            aliases_view(aliases@),
        );
        let line: &str = lines[li].as_str();
        let n = line.unicode_len();
        let ghost lv = linesv[li as int];
        let ghost ln = li as int + 1;
        proof {
            assert(lines.deep_view()[li as int] == lines@[li as int]@);
            assert(line@ == lv);
        }
        let mut pos: usize = 0;
        loop
            invariant_except_break
                process_line_from(st_enter, lv, 0, ln) == process_line_from(
                    m_state(
                        cur,
                        expected_open,
                        vp,
                        ve,
                        va,
                        path.deep_view(),
                        exports.deep_view(),
                        aliases_view(aliases@),
                    ),
                    lv,
                    pos as int,
                    ln,
                ),
            invariant
                pos <= n,
                n == line@.len(),
                line@ == lv,
                lv == linesv[li as int],
                li < nlines,
                nlines == lines@.len(),
                nlines == linesv.len(),
                ln == li as int + 1,
                linesv == lines_of(text@),
                run_from(init_machine(), linesv, 0) == run_from(st_enter, linesv, li as int),
            ensures
                process_line_from(st_enter, lv, 0, ln) == Ok::<MachineV, ErrorV>(
                    m_state(
                        cur,
                        expected_open,
                        vp,
                        ve,
                        va,
                        path.deep_view(),
                        exports.deep_view(),
                        aliases_view(aliases@),
                    ),
                ),
            decreases n - pos,
        {
            let ghost st_here = m_state(
                cur,
                expected_open,
                vp,
                ve,
                va,
                path.deep_view(),
                exports.deep_view(),
                aliases_view(aliases@),
            );
            let s = crate::strutil::find_token_start(line, n, pos);
            if s >= n {
                break;
            }
            let e = crate::strutil::find_token_end(line, n, s);
            let ghost tokv = lv.subrange(s as int, e as int);
            proof {
                lemma_next_token_start_range(lv, pos as int);
                lemma_token_end_range(lv, s + 1);
                assert(e >= s + 1);
            }
            if crate::strutil::token_is_char(line, n, s, e, '#') {
                break;
            }
            if expected_open {
                if crate::strutil::token_is_char(line, n, s, e, '{') {
                    expected_open = false;
                    pos = e;
                    continue;
                } else {
                    let sec = match cur {
                        Some(s0) => s0,
                        None => Section::Path,
                    };
                    let err = Error::Parse(ParseIssue::MissingOpen(sec), li + 1);
                    proof {
                        assert(process_line_from(st_here, lv, pos as int, ln) == Err::<
                            MachineV,
                            ErrorV,
                        >(err@));
                        assert(run_from(st_enter, linesv, li as int) == Err::<MachineV, ErrorV>(
                            err@,
                        ));
                    }
                    return Err(err);
                }
            }
            let kp = token_is_path_kw(line, n, s, e);
            let ke = token_is_exports_kw(line, n, s, e);
            let ka = token_is_aliases_kw(line, n, s, e);
            if kp || ke || ka {
                let sec = if kp {
                    Section::Path
                } else if ke {
                    Section::Exports
                } else {
                    Section::Aliases
                };
                let vis = match sec {
                    Section::Path => vp,
                    Section::Exports => ve,
                    Section::Aliases => va,
                };
                if vis {
                    let err = Error::Parse(ParseIssue::AlreadySet(sec), li + 1);
                    proof {
                        assert(process_line_from(st_here, lv, pos as int, ln) == Err::<
                            MachineV,
                            ErrorV,
                        >(err@));
                        assert(run_from(st_enter, linesv, li as int) == Err::<MachineV, ErrorV>(
                            err@,
                        ));
                    }
                    return Err(err);
                }
                match cur {
                    Some(open) => {
                        let err = Error::Parse(ParseIssue::StillOpen(open, sec), li + 1);
                        proof {
                            assert(process_line_from(st_here, lv, pos as int, ln) == Err::<
                                MachineV,
                                ErrorV,
                            >(err@));
                            assert(run_from(st_enter, linesv, li as int) == Err::<
                                MachineV,
                                ErrorV,
                            >(err@));
                        }
                        return Err(err);
                    },
                    None => {
                        cur = Some(sec);
                        expected_open = true;
                        pos = e;
                    },
                }
                continue;
            }
            if crate::strutil::token_is_char(line, n, s, e, '}') {
                match cur {
                    None => {
                        let err = Error::Parse(ParseIssue::StrayClose, li + 1);
                        proof {
                            assert(process_line_from(st_here, lv, pos as int, ln) == Err::<
                                MachineV,
                                ErrorV,
                            >(err@));
                            assert(run_from(st_enter, linesv, li as int) == Err::<
                                MachineV,
                                ErrorV,
                            >(err@));
                        }
                        return Err(err);
                    },
                    Some(sec) => {
                        match sec {
                            Section::Path => {
                                vp = true;
                            },
                            Section::Exports => {
                                ve = true;
                            },
                            Section::Aliases => {
                                va = true;
                            },
                        }
                        cur = None;
                        pos = e;
                    },
                }
                continue;
            }
            if crate::strutil::token_is_char(line, n, s, e, '{') {
                let err = Error::Parse(ParseIssue::StrayOpen, li + 1);
                proof {
                    assert(process_line_from(st_here, lv, pos as int, ln) == Err::<
                        MachineV,
                        ErrorV,
                    >(err@));
                    assert(run_from(st_enter, linesv, li as int) == Err::<MachineV, ErrorV>(
                        err@,
                    ));
                }
                return Err(err);
            }
            match cur {
                None => {
                    let err = Error::Parse(
                        ParseIssue::UnexpectedToken(String::from_str(line.substring_char(s, e))),
                        li + 1,
                    );
                    proof {
                        assert(process_line_from(st_here, lv, pos as int, ln) == Err::<
                            MachineV,
                            ErrorV,
                        >(err@));
                        assert(run_from(st_enter, linesv, li as int) == Err::<MachineV, ErrorV>(
                            err@,
                        ));
                    }
                    return Err(err);
                },
                Some(Section::Path) => {
                    let ghost path_old = path.deep_view();
                    path.push(String::from_str(line.substring_char(s, e)));
                    proof {
                        assert(path.deep_view() =~= path_old.push(tokv));
                    }
                    pos = e;
                },
                Some(Section::Exports) => {
                    if crate::strutil::contains_char_in(line, n, '\0', s, e) {
                        let err = Error::Nul(li + 1);
                        proof {
                            assert(contains_char(tokv, '\0'));
                            assert(process_line_from(st_here, lv, pos as int, ln) == Err::<
                                MachineV,
                                ErrorV,
                            >(err@));
                            assert(run_from(st_enter, linesv, li as int) == Err::<
                                MachineV,
                                ErrorV,
                            >(err@));
                        }
                        return Err(err);
                    }
                    let ghost exports_old = exports.deep_view();
                    exports.push(String::from_str(line.substring_char(s, e)));
                    proof {
                        assert(exports.deep_view() =~= exports_old.push(tokv));
                    }
                    pos = e;
                },
                Some(Section::Aliases) => {
                    proof {
                        lemma_next_token_start_range(lv, pos as int);
                        assert(next_token_start(lv, s as int) == s);
                        assert(find_close_tok(lv, s as int) == find_close_tok(lv, e as int));
                    }
                    let close = find_close_from(line, n, e);
                    let (raw_end, closes): (usize, bool) = match close {
                        Some(j) => (j, true),
                        None => (n, false),
                    };
                    let te = crate::strutil::end_trim_pos(line, n, s, raw_end);
                    let ghost text_v = end_trim(lv.subrange(s as int, raw_end as int));
                    proof {
                        assert(text_v == lv.subrange(s as int, te as int));
                    }
                    match crate::strutil::find_char_in(line, n, '=', s, te) {
                        None => {
                            let err = Error::Parse(
                                ParseIssue::BadAliasLine(
                                    String::from_str(line.substring_char(s, te)),
                                ),
                                li + 1,
                            );
                            proof {
                                assert(process_line_from(st_here, lv, pos as int, ln) == Err::<
                                    MachineV,
                                    ErrorV,
                                >(err@));
                                assert(run_from(st_enter, linesv, li as int) == Err::<
                                    MachineV,
                                    ErrorV,
                                >(err@));
                            }
                            return Err(err);
                        },
                        Some(j) => {
                            let ghost k = j - s as int;
                            proof {
                                assert(text_v.subrange(0, k) =~= lv.subrange(s as int, j as int));
                                assert(text_v.subrange(k + 1, text_v.len() as int) =~= lv.subrange(
                                    j + 1,
                                    te as int,
                                ));
                            }
                            if crate::strutil::contains_char_in(line, n, '\0', s, j) {
                                let err = Error::Nul(li + 1);
                                proof {
                                    assert(process_line_from(st_here, lv, pos as int, ln)
                                        == Err::<MachineV, ErrorV>(err@));
                                    assert(run_from(st_enter, linesv, li as int) == Err::<
                                        MachineV,
                                        ErrorV,
                                    >(err@));
                                }
                                return Err(err);
                            }
                            let key_s = String::from_str(line.substring_char(s, j));
                            let repl = encode_value(line.substring_char(j + 1, te));
                            let ghost aliases_old = aliases_view(aliases@);
                            aliases.push(Alias { key: key_s, replacement: repl });
                            if closes {
                                va = true;
                                cur = None;
                            }
                            proof {
                                assert(aliases_view(aliases@) =~= aliases_old.push(
                                    AliasV {
                                        key: lv.subrange(s as int, j as int),
                                        replacement: encode_alias_value(
                                            lv.subrange(j + 1, te as int),
                                        ),
                                    },
                                ));
                                assert(process_line_from(st_here, lv, pos as int, ln) == Ok::<
                                    MachineV,
                                    ErrorV,
                                >(
                                    m_state(
                                        cur,
                                        expected_open,
                                        vp,
                                        ve,
                                        va,
                                        path.deep_view(),
                                        exports.deep_view(),
                                        aliases_view(aliases@),
                                    ),
                                ));
                            }
                            break;
                        },
                    }
                },
            }
        }
        proof {
            let st_exit = m_state(
                cur,
                expected_open,
                vp,
                ve,
                va,
                path.deep_view(),
                exports.deep_view(),
                aliases_view(aliases@),
            );
            assert(run_from(st_enter, linesv, li as int) == run_from(st_exit, linesv, li + 1));
        }
        li = li + 1;
    }
    proof {
        let st_final = m_state(
            cur,
            expected_open,
            vp,
            ve,
            va,
            path.deep_view(),
            exports.deep_view(),
            aliases_view(aliases@),
        );
        assert(run_from(st_final, linesv, nlines as int) == Ok::<MachineV, ErrorV>(st_final));
    }
    match cur {
        Some(sec) => Err(Error::Parse(ParseIssue::UnclosedAtEof(sec), nlines)),
        None => Ok(Settings { path, exports, aliases }),
    }
}

/// Appends the colon-separated segments of `p` to the path list.
fn append_inherited(path: &mut Vec<String>, p: &str)
    ensures
        final(path).deep_view() == old(path).deep_view() + split_colon_from(p@, 0),
{
    let n = p.unicode_len();
    let mut pos: usize = 0;
    loop
        invariant_except_break
            pos <= n,
            n == p@.len(),
            old(path).deep_view() + split_colon_from(p@, 0) == path.deep_view()
                + split_colon_from(p@, pos as int),
        ensures
            path.deep_view() == old(path).deep_view() + split_colon_from(p@, 0),
        decreases n - pos,
    {
        let ghost path_old = path.deep_view();
        match crate::strutil::find_char_at(p, n, ':', pos) {
            Some(k) => {
                path.push(String::from_str(p.substring_char(pos, k)));
                proof {
                    assert(path.deep_view() =~= path_old.push(p@.subrange(pos as int, k as int)));
                    assert(split_colon_from(p@, pos as int) == seq![
                        p@.subrange(pos as int, k as int),
                    ] + split_colon_from(p@, k + 1));
                    assert(path_old + split_colon_from(p@, pos as int) =~= path.deep_view()
                        + split_colon_from(p@, k + 1));
                }
                pos = k + 1;
            },
            None => {
                path.push(String::from_str(p.substring_char(pos, n)));
                proof {
                    assert(path.deep_view() =~= path_old.push(p@.subrange(pos as int, n as int)));
                    assert(split_colon_from(p@, pos as int) == seq![
                        p@.subrange(pos as int, n as int),
                    ]);
                    assert(path_old + split_colon_from(p@, pos as int) =~= path.deep_view());
                }
                break;
            },
        }
    }
}

/// The view of an optional borrowed string.
pub open spec fn opt_str_view(o: Option<&str>) -> Option<Seq<char>> {
    match o {
        Some(s) => Some(s@),
        None => None,
    }
}

/// Loads the settings: parses the startup-file text, if the file existed,
/// and appends the segments of the inherited search path, if one was set,
/// after the configured entries.
pub fn load_settings(text: Option<&str>, inherited_path: Option<&str>) -> (r: Result<
    Settings,
    Error,
>)
    ensures
        parse_matches(r, spec_load(opt_str_view(text), opt_str_view(inherited_path))),
        r matches Ok(s) ==> settings_wf(s@),
{
    proof {
        lemma_load_settings_wf(opt_str_view(text), opt_str_view(inherited_path));
    }
    let base = match text {
        None => {
            let s = Settings { path: Vec::new(), exports: Vec::new(), aliases: Vec::new() };
            proof {
                assert(s@.path =~= empty_settings().path);
                assert(s@.exports =~= empty_settings().exports);
                assert(s@.aliases =~= empty_settings().aliases);
            }
            s
        },
        Some(t) => match parse_text(t) {
            Ok(s) => s,
            Err(e) => {
                return Err(e);
            },
        },
    };
    let ghost base_v = base@;
    let mut path_vec = base.path;
    match inherited_path {
        Some(p) => {
            append_inherited(&mut path_vec, p);
        },
        None => {
            proof {
                assert(path_vec.deep_view() =~= base_v.path + Seq::<Seq<char>>::empty());
            }
        },
    }
    let settings = Settings { path: path_vec, exports: base.exports, aliases: base.aliases };
    Ok(settings)
}

/// No exports entry holds a NUL.
pub open spec fn exports_wf(exports: Seq<Seq<char>>) -> bool {
    forall|i: int| 0 <= i < exports.len() ==> !contains_char(#[trigger] exports[i], '\0')
}

/// No alias key holds a NUL, and every stored replacement is closed by the
/// NUL sentinel.
pub open spec fn aliases_wf(aliases: Seq<AliasV>) -> bool {
    (forall|i: int| 0 <= i < aliases.len() ==> !contains_char(#[trigger] aliases[i].key, '\0'))
        && (forall|i: int|
        0 <= i < aliases.len() ==> (#[trigger] aliases[i].replacement).len() > 0
            && aliases[i].replacement.last() == '\0')
}

/// The data-model invariant of a loaded configuration.
pub open spec fn settings_wf(s: SettingsV) -> bool {
    exports_wf(s.exports) && aliases_wf(s.aliases)
}

/// The same invariant over the parser's intermediate state.
pub open spec fn machine_wf(st: MachineV) -> bool {
    exports_wf(st.exports) && aliases_wf(st.aliases)
}

proof fn lemma_wf_same_tables(st: MachineV, st2: MachineV)
    requires
        machine_wf(st),
        st2.exports == st.exports,
        st2.aliases == st.aliases,
    ensures
        machine_wf(st2),
{
    assert forall|i: int| 0 <= i < st2.exports.len() implies !contains_char(
        #[trigger] st2.exports[i],
        '\0',
    ) by {
        assert(st2.exports[i] == st.exports[i]);
    }
    assert forall|i: int| 0 <= i < st2.aliases.len() implies !contains_char(
        #[trigger] st2.aliases[i].key,
        '\0',
    ) by {
        assert(st2.aliases[i].key == st.aliases[i].key);
    }
    assert forall|i: int|
        0 <= i < st2.aliases.len() implies (#[trigger] st2.aliases[i].replacement).len() > 0
        && st2.aliases[i].replacement.last() == '\0' by {
        assert(st2.aliases[i].replacement == st.aliases[i].replacement);
    }
}

proof fn lemma_wf_push_export(st: MachineV, st2: MachineV, tok: Seq<char>)
    requires
        machine_wf(st),
        st2.exports == st.exports.push(tok),
        !contains_char(tok, '\0'),
        st2.aliases == st.aliases,
    ensures
        machine_wf(st2),
{
    assert forall|i: int| 0 <= i < st2.exports.len() implies !contains_char(
        #[trigger] st2.exports[i],
        '\0',
    ) by {
        if i < st.exports.len() {
            assert(st2.exports[i] == st.exports[i]);
        } else {
            assert(st2.exports[i] == tok);
        }
    }
    assert forall|i: int| 0 <= i < st2.aliases.len() implies !contains_char(
        #[trigger] st2.aliases[i].key,
        '\0',
    ) by {
        assert(st2.aliases[i].key == st.aliases[i].key);
    }
    assert forall|i: int|
        0 <= i < st2.aliases.len() implies (#[trigger] st2.aliases[i].replacement).len() > 0
        && st2.aliases[i].replacement.last() == '\0' by {
        assert(st2.aliases[i].replacement == st.aliases[i].replacement);
    }
}

proof fn lemma_wf_push_alias(st: MachineV, st2: MachineV, a: AliasV)
    requires
        machine_wf(st),
        st2.aliases == st.aliases.push(a),
        !contains_char(a.key, '\0'),
        a.replacement.len() > 0,
        a.replacement.last() == '\0',
        st2.exports == st.exports,
    ensures
        machine_wf(st2),
{
    assert forall|i: int| 0 <= i < st2.exports.len() implies !contains_char(
        #[trigger] st2.exports[i],
        '\0',
    ) by {
        assert(st2.exports[i] == st.exports[i]);
    }
    assert forall|i: int| 0 <= i < st2.aliases.len() implies !contains_char(
        #[trigger] st2.aliases[i].key,
        '\0',
    ) by {
        if i < st.aliases.len() {
            assert(st2.aliases[i].key == st.aliases[i].key);
        } else {
            assert(st2.aliases[i] == a);
        }
    }
    assert forall|i: int|
        0 <= i < st2.aliases.len() implies (#[trigger] st2.aliases[i].replacement).len() > 0
        && st2.aliases[i].replacement.last() == '\0' by {
        if i < st.aliases.len() {
            assert(st2.aliases[i].replacement == st.aliases[i].replacement);
        } else {
            assert(st2.aliases[i] == a);
        }
    }
}

proof fn lemma_process_line_wf(st: MachineV, line: Seq<char>, pos: int, ln: int)
    requires
        0 <= pos <= line.len(),
        machine_wf(st),
    ensures
        process_line_from(st, line, pos, ln) matches Ok(st2) ==> machine_wf(st2),
    decreases line.len() - pos,
{
    lemma_next_token_start_range(line, pos);
    let s = next_token_start(line, pos);
    if s < line.len() {
        lemma_token_end_range(line, s + 1);
        let e = token_end(line, s);
        let tok = line.subrange(s, e);
        if tok == seq!['#'] {
        } else if st.expected_open {
            if tok == seq!['{'] {
                let st2 = MachineV { expected_open: false, ..st };
                lemma_wf_same_tables(st, st2);
                lemma_process_line_wf(st2, line, e, ln);
            }
        } else if tok == section_kw(Section::Path) || tok == section_kw(Section::Exports) || tok
            == section_kw(Section::Aliases) {
            let sec = if tok == section_kw(Section::Path) {
                Section::Path
            } else if tok == section_kw(Section::Exports) {
                Section::Exports
            } else {
                Section::Aliases
            };
            match ident_result(st, sec, ln) {
                Err(_) => {},
                Ok(st2) => {
                    lemma_wf_same_tables(st, st2);
                    lemma_process_line_wf(st2, line, e, ln);
                },
            }
        } else if tok == seq!['}'] {
            match st.cur {
                None => {},
                Some(sec) => {
                    let st2 = with_closed(st, sec);
                    lemma_wf_same_tables(st, st2);
                    lemma_process_line_wf(st2, line, e, ln);
                },
            }
        } else if tok == seq!['{'] {
        } else {
            match st.cur {
                None => {},
                Some(Section::Path) => {
                    let st2 = MachineV { path: st.path.push(tok), ..st };
                    lemma_wf_same_tables(st, st2);
                    lemma_process_line_wf(st2, line, e, ln);
                },
                Some(Section::Exports) => {
                    if !contains_char(tok, '\0') {
                        let st2 = MachineV { exports: st.exports.push(tok), ..st };
                        lemma_wf_push_export(st, st2, tok);
                        lemma_process_line_wf(st2, line, e, ln);
                    }
                },
                Some(Section::Aliases) => {
                    if let Ok(st2) = alias_step(st, line, s, ln) {
                        let added = st2.aliases[st2.aliases.len() - 1];
                        assert(st2.aliases == st.aliases.push(added));
                        assert(!contains_char(added.key, '\0'));
                        assert(added.replacement.len() > 0 && added.replacement.last() == '\0');
                        lemma_wf_push_alias(st, st2, added);
                    }
                },
            }
        }
    }
}

proof fn lemma_run_wf(st: MachineV, lines: Seq<Seq<char>>, i: int)
    requires
        0 <= i <= lines.len(),
        machine_wf(st),
    ensures
        run_from(st, lines, i) matches Ok(st2) ==> machine_wf(st2),
    decreases lines.len() - i,
{
    if i < lines.len() {
        lemma_process_line_wf(st, lines[i], 0, i + 1);
        match process_line_from(st, lines[i], 0, i + 1) {
            Err(_) => {},
            Ok(st2) => {
                lemma_run_wf(st2, lines, i + 1);
            },
        }
    }
}

/// No token destined for the exports list, and no alias key, holds an
/// interior NUL in a successfully parsed configuration: violating input is
/// rejected at parse time.  Every stored replacement ends with the NUL
/// sentinel.
pub proof fn lemma_parse_settings_wf(text: Seq<char>)
    ensures
        spec_parse(text) matches Ok(s) ==> settings_wf(s),
{
    lemma_run_wf(init_machine(), lines_of(text), 0);
}

/// The invariant carries over to a loaded configuration: appending the
/// inherited search path touches neither exports nor aliases.
pub proof fn lemma_load_settings_wf(text: Option<Seq<char>>, inherited: Option<Seq<char>>)
    ensures
        spec_load(text, inherited) matches Ok(s) ==> settings_wf(s),
{
    match text {
        Some(t) => lemma_parse_settings_wf(t),
        None => {},
    }
}

/// A second occurrence of any of the three section identifiers, once that
/// section was closed, is rejected with the "already set" error naming it,
/// wherever in a line it stands.
pub proof fn lemma_second_section_rejected(
    st: MachineV,
    line: Seq<char>,
    pos: int,
    ln: int,
    sec: Section,
)
    requires
        0 <= pos <= line.len(),
        !st.expected_open,
        section_visited(st, sec),
        ({
            let s = next_token_start(line, pos);
            s < line.len() && line.subrange(s, token_end(line, s)) == section_kw(sec)
        }),
    ensures
        process_line_from(st, line, pos, ln) == Err::<MachineV, ErrorV>(
            ErrorV::Parse(IssueV::AlreadySet(sec), ln),
        ),
{
    let s = next_token_start(line, pos);
    let e = token_end(line, s);
    let tok = line.subrange(s, e);
    assert(section_kw(Section::Path).len() == 4);
    assert(section_kw(Section::Exports).len() == 7);
    assert(section_kw(Section::Aliases).len() == 7);
    assert(tok != seq!['#']) by {
        assert(seq!['#'].len() == 1);
    }
    assert(section_kw(Section::Exports)[0] == 'E');
    assert(section_kw(Section::Aliases)[0] == 'A');
}

/// A section identifier not immediately followed by `{` is rejected,
/// naming that section: while the `{` is awaited, any token other than `{`
/// (and other than a `#` comment, which discards the rest of the line)
/// fails with the missing-open error.
pub proof fn lemma_missing_open_rejected(
    st: MachineV,
    line: Seq<char>,
    pos: int,
    ln: int,
    sec: Section,
)
    requires
        0 <= pos <= line.len(),
        st.expected_open,
        st.cur == Some(sec),
        ({
            let s = next_token_start(line, pos);
            let tok = line.subrange(s, token_end(line, s));
            s < line.len() && tok != seq!['{'] && tok != seq!['#']
        }),
    ensures
        process_line_from(st, line, pos, ln) == Err::<MachineV, ErrorV>(
            ErrorV::Parse(IssueV::MissingOpen(sec), ln),
        ),
{
}

/// A closing `}` with no section open is rejected.
pub proof fn lemma_stray_close_rejected(st: MachineV, line: Seq<char>, pos: int, ln: int)
    requires
        0 <= pos <= line.len(),
        !st.expected_open,
        st.cur is None,
        ({
            let s = next_token_start(line, pos);
            s < line.len() && line.subrange(s, token_end(line, s)) == seq!['}']
        }),
    ensures
        process_line_from(st, line, pos, ln) == Err::<MachineV, ErrorV>(
            ErrorV::Parse(IssueV::StrayClose, ln),
        ),
{
    let s = next_token_start(line, pos);
    let tok = line.subrange(s, token_end(line, s));
    assert(tok != seq!['#']) by {
        assert(tok[0] == '}');
        assert(seq!['#'][0] == '#');
    }
    assert(tok != section_kw(Section::Path)) by {
        assert(section_kw(Section::Path).len() == 4);
    }
    assert(tok != section_kw(Section::Exports)) by {
        assert(section_kw(Section::Exports).len() == 7);
    }
    assert(tok != section_kw(Section::Aliases)) by {
        assert(section_kw(Section::Aliases).len() == 7);
    }
}

/// A bare `{` without a preceding section identifier is rejected.
pub proof fn lemma_stray_open_rejected(st: MachineV, line: Seq<char>, pos: int, ln: int)
    requires
        0 <= pos <= line.len(),
        !st.expected_open,
        ({
            let s = next_token_start(line, pos);
            s < line.len() && line.subrange(s, token_end(line, s)) == seq!['{']
        }),
    ensures
        process_line_from(st, line, pos, ln) == Err::<MachineV, ErrorV>(
            ErrorV::Parse(IssueV::StrayOpen, ln),
        ),
{
    let s = next_token_start(line, pos);
    let tok = line.subrange(s, token_end(line, s));
    assert(tok != seq!['#']) by {
        assert(tok[0] == '{');
        assert(seq!['#'][0] == '#');
    }
    assert(tok != section_kw(Section::Path)) by {
        assert(section_kw(Section::Path).len() == 4);
    }
    assert(tok != section_kw(Section::Exports)) by {
        assert(section_kw(Section::Exports).len() == 7);
    }
    assert(tok != section_kw(Section::Aliases)) by {
        assert(section_kw(Section::Aliases).len() == 7);
    }
    assert(tok != seq!['}']) by {
        assert(tok[0] == '{');
        assert(seq!['}'][0] == '}');
    }
}

} // verus!
