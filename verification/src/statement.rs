use vstd::prelude::*;

use crate::config::{aliases_view, Alias, AliasV};
use crate::strutil::{
    end_trim, find_char, is_space, is_space_char, lemma_find_char_props,
    lemma_next_token_start_range, lemma_token_end_range, next_token_start, token_end,
};

verus! {

/// `s` with its leading whitespace removed.
pub open spec fn start_trim(s: Seq<char>) -> Seq<char>
    decreases s.len(),
{
    if s.len() > 0 && is_space(s[0]) {
        start_trim(s.drop_first())
    } else {
        s
    }
}

/// `s` with leading and trailing whitespace removed.
pub open spec fn trim(s: Seq<char>) -> Seq<char> {
    start_trim(end_trim(s))
}

/// The trimmed, non-empty statements of one input line from position `pos`
/// on: the pieces between semicolons, in order.
pub open spec fn statements_from(line: Seq<char>, pos: int) -> Seq<Seq<char>>
    decreases line.len() - pos when 0 <= pos <= line.len() via statements_from_dec
{
    match find_char(line, ';', pos) {
        Some(k) => {
            let piece = trim(line.subrange(pos, k));
            (if piece.len() > 0 {
                seq![piece]
            } else {
                Seq::<Seq<char>>::empty()
            }) + statements_from(line, k + 1)
        },
        None => {
            let piece = trim(line.subrange(pos, line.len() as int));
            if piece.len() > 0 {
                seq![piece]
            } else {
                Seq::<Seq<char>>::empty()
            }
        },
    }
}

#[via_fn]
proof fn statements_from_dec(line: Seq<char>, pos: int) {
    if 0 <= pos <= line.len() {
        lemma_find_char_props(line, ';', pos);
    }
}

pub open spec fn spec_statements(line: Seq<char>) -> Seq<Seq<char>> {
    statements_from(line, 0)
}

/// The whitespace-separated tokens of `s` from position `pos` on.
pub open spec fn tokens_from(s: Seq<char>, pos: int) -> Seq<Seq<char>>
    decreases s.len() - pos when 0 <= pos <= s.len() via tokens_from_dec
{
    let t = next_token_start(s, pos);
    if t >= s.len() {
        Seq::empty()
    } else {
        let e = token_end(s, t);
        seq![s.subrange(t, e)] + tokens_from(s, e)
    }
}

#[via_fn]
proof fn tokens_from_dec(s: Seq<char>, pos: int) {
    lemma_next_token_start_range(s, pos);
    let t = next_token_start(s, pos);
    if t < s.len() {
        lemma_token_end_range(s, t + 1);
    }
}

pub open spec fn spec_tokens(s: Seq<char>) -> Seq<Seq<char>> {
    tokens_from(s, 0)
}

/// Trims the substring `[a, b)` of `s` into an owned string.
fn trim_substr(s: &str, n: usize, a: usize, b: usize) -> (r: String)
    requires
        n == s@.len(),
        a <= b <= n,
    ensures
        r@ == trim(s@.subrange(a as int, b as int)),
{
    let te = crate::strutil::end_trim_pos(s, n, a, b);
    let mut ts: usize = a;
    while ts < te && is_space_char(s.get_char(ts))
        invariant
            a <= ts <= te <= n,
            n == s@.len(),
            end_trim(s@.subrange(a as int, b as int)) == s@.subrange(a as int, te as int),
            start_trim(s@.subrange(a as int, te as int)) == start_trim(
                s@.subrange(ts as int, te as int),
            ),
        decreases te - ts,
    {
        proof {
            assert(s@.subrange(ts as int, te as int).drop_first() =~= s@.subrange(
                ts + 1,
                te as int,
            ));
        }
        ts = ts + 1;
    }
    proof {
        if ts < te {
            assert(s@.subrange(ts as int, te as int)[0] == s@[ts as int]);
        } else {
            assert(s@.subrange(te as int, te as int).len() == 0);
        }
        assert(start_trim(s@.subrange(ts as int, te as int)) == s@.subrange(
            ts as int,
            te as int,
        ));
    }
    String::from_str(s.substring_char(ts, te))
}

/// Splits one input line on `;` into its trimmed, non-empty statements.
pub fn split_statements(line: &str) -> (v: Vec<String>)
    ensures
        v.deep_view() == spec_statements(line@),
{
    let n = line.unicode_len();
    let mut v: Vec<String> = Vec::new();
    let mut pos: usize = 0;
    proof {
        assert(v.deep_view() =~= Seq::<Seq<char>>::empty());
    }
    loop
        invariant_except_break
            pos <= n,
            n == line@.len(),
            spec_statements(line@) == v.deep_view() + statements_from(line@, pos as int),
        ensures
            v.deep_view() == spec_statements(line@),
        decreases n - pos,
    {
        let ghost v_old = v.deep_view();
        match crate::strutil::find_char_at(line, n, ';', pos) {
            Some(k) => {
                let piece = trim_substr(line, n, pos, k);
                if !piece.as_str().is_empty() {
                    v.push(piece);
                    proof {
                        assert(v.deep_view() =~= v_old.push(
                            trim(line@.subrange(pos as int, k as int)),
                        ));
                        assert(v_old + statements_from(line@, pos as int) =~= v.deep_view()
                            + statements_from(line@, k + 1));
                    }
                } else {
                    proof {
                        assert(v_old + statements_from(line@, pos as int) =~= v.deep_view()
                            + statements_from(line@, k + 1));
                    }
                }
                pos = k + 1;
            },
            None => {
                let piece = trim_substr(line, n, pos, n);
                if !piece.as_str().is_empty() {
                    v.push(piece);
                    proof {
                        assert(v.deep_view() =~= v_old.push(
                            trim(line@.subrange(pos as int, n as int)),
                        ));
                        assert(v_old + statements_from(line@, pos as int) =~= v.deep_view());
                    }
                } else {
                    proof {
                        assert(v_old + statements_from(line@, pos as int) =~= v.deep_view());
                    }
                }
                break;
            },
        }
    }
    v
}

/// Splits a statement on whitespace runs into its argv-style token list.
pub fn tokenize(s: &str) -> (v: Vec<String>)
    ensures
        v.deep_view() == spec_tokens(s@),
{
    let n = s.unicode_len();
    let mut v: Vec<String> = Vec::new();
    let mut pos: usize = 0;
    proof {
        assert(v.deep_view() =~= Seq::<Seq<char>>::empty());
    }
    loop
        invariant_except_break
            pos <= n,
            n == s@.len(),
            spec_tokens(s@) == v.deep_view() + tokens_from(s@, pos as int),
        ensures
            v.deep_view() == spec_tokens(s@),
        decreases n - pos,
    {
        let ghost v_old = v.deep_view();
        let t = crate::strutil::find_token_start(s, n, pos);
        if t >= n {
            proof {
                assert(v_old + tokens_from(s@, pos as int) =~= v.deep_view());
            }
            break;
        }
        let e = crate::strutil::find_token_end(s, n, t);
        proof {
            lemma_next_token_start_range(s@, pos as int);
            lemma_token_end_range(s@, t + 1);
            assert(e >= t + 1);
        }
        v.push(String::from_str(s.substring_char(t, e)));
        proof {
            assert(v.deep_view() =~= v_old.push(s@.subrange(t as int, e as int)));
            assert(v_old + tokens_from(s@, pos as int) =~= v.deep_view() + tokens_from(
                s@,
                e as int,
            ));
        }
        pos = e;
    }
    v
}

/// The replacement stored for `key`, where later entries shadow earlier
/// ones, as a rebuilt alias table would.
pub open spec fn alias_lookup(aliases: Seq<AliasV>, key: Seq<char>) -> Option<Seq<char>>
    decreases aliases.len(),
{
    if aliases.len() == 0 {
        None
    } else if aliases.last().key == key {
        Some(aliases.last().replacement)
    } else {
        alias_lookup(aliases.drop_last(), key)
    }
}

/// Looks the first token up in the alias table.
pub fn lookup_alias(aliases: &Vec<Alias>, key: &String) -> (r: Option<String>)
    ensures
        match r {
            Some(rep) => alias_lookup(aliases_view(aliases@), key@) == Some(rep@),
            None => alias_lookup(aliases_view(aliases@), key@) is None,
        },
{
    let ghost av = aliases_view(aliases@);
    let mut i: usize = aliases.len();
    proof {
        assert(av.subrange(0, av.len() as int) =~= av);
    }
    loop
        invariant_except_break
            i <= aliases.len(),
            av == aliases_view(aliases@),
            av.len() == aliases@.len(),
            alias_lookup(av, key@) == alias_lookup(av.subrange(0, i as int), key@),
        ensures
            alias_lookup(av, key@) == alias_lookup(av.subrange(0, i as int), key@),
            i == 0 || (i <= aliases@.len() && av[i as int - 1].key == key@ && alias_lookup(
                av.subrange(0, i as int),
                key@,
            ) == Some(av[i as int - 1].replacement)),
        decreases i,
    {
        if i == 0 {
            proof {
                assert(av.subrange(0, 0).len() == 0);
            }
            break;
        }
        i = i - 1;
        proof {
            assert(av.subrange(0, i + 1).last() == av[i as int]);
            assert(av[i as int] == aliases@[i as int]@);
        }
        if aliases[i].key.eq(key) {
            i = i + 1;
            break;
        }
        proof {
            assert(av.subrange(0, i + 1).drop_last() =~= av.subrange(0, i as int));
        }
    }
    if i == 0 {
        None
    } else {
        Some(aliases[i - 1].replacement.clone())
    }
}

/// The non-empty NUL-separated pieces of `s` from position `pos` on.
pub open spec fn nonempty_pieces_from(s: Seq<char>, pos: int) -> Seq<Seq<char>>
    decreases s.len() - pos when 0 <= pos <= s.len() via nonempty_pieces_from_dec
{
    match find_char(s, '\0', pos) {
        Some(k) => (if k - pos > 0 {
            seq![s.subrange(pos, k)]
        } else {
            Seq::<Seq<char>>::empty()
        }) + nonempty_pieces_from(s, k + 1),
        None => {
            if s.len() - pos > 0 {
                seq![s.subrange(pos, s.len() as int)]
            } else {
                Seq::<Seq<char>>::empty()
            }
        },
    }
}

#[via_fn]
proof fn nonempty_pieces_from_dec(s: Seq<char>, pos: int) {
    if 0 <= pos <= s.len() {
        lemma_find_char_props(s, '\0', pos);
    }
}

/// The argv produced by expanding an alias: the replacement's first
/// sub-token takes slot 0, its remaining non-empty sub-tokens follow, and
/// the statement's own arguments come after them.
pub open spec fn expand_with(repl: Seq<char>, rest: Seq<Seq<char>>) -> Seq<Seq<char>> {
    match find_char(repl, '\0', 0) {
        None => seq![repl] + rest,
        Some(k) => seq![repl.subrange(0, k)] + nonempty_pieces_from(repl, k + 1) + rest,
    }
}

/// The argv of a token list after one level of alias expansion: if the
/// first token is an alias key, the stored replacement replaces it; the
/// replacement is never re-scanned for further aliases.
pub open spec fn spec_expand(tokens: Seq<Seq<char>>, aliases: Seq<AliasV>) -> Seq<Seq<char>>
    recommends
        tokens.len() >= 1,
{
    match alias_lookup(aliases, tokens[0]) {
        None => tokens,
        Some(repl) => expand_with(repl, tokens.drop_first()),
    }
}

/// Applies one level of alias expansion to a token list.
pub fn expand_alias(tokens: Vec<String>, aliases: &Vec<Alias>) -> (r: Vec<String>)
    requires
        tokens@.len() >= 1,
    ensures
        r.deep_view() == spec_expand(tokens.deep_view(), aliases_view(aliases@)),
{
    let ghost toksv = tokens.deep_view();
    proof {
        assert(toksv[0] == tokens@[0]@);
    }
    match lookup_alias(aliases, &tokens[0]) {
        None => tokens,
        Some(repl) => {
            let rs: &str = repl.as_str();
            let m = rs.unicode_len();
            let mut v: Vec<String> = Vec::new();
            let ghost first_done: Seq<Seq<char>>;
            match crate::strutil::find_char_at(rs, m, '\0', 0) {
                None => {
                    v.push(repl.clone());
                    proof {
                        first_done = v.deep_view();
                        assert(first_done =~= seq![repl@]);
                        assert(first_done + Seq::<Seq<char>>::empty() =~= first_done);
                    }
                },
                Some(k0) => {
                    v.push(String::from_str(rs.substring_char(0, k0)));
                    let ghost head = v.deep_view();
                    proof {
                        assert(head =~= seq![repl@.subrange(0, k0 as int)]);
                    }
                    let mut pos: usize = k0 + 1;
                    loop
                        invariant_except_break
                            pos <= m,
                            m == repl@.len(),
                            rs@ == repl@,
                            head == seq![repl@.subrange(0, k0 as int)],
                            k0 < m,
                            head + nonempty_pieces_from(repl@, k0 + 1) == v.deep_view()
                                + nonempty_pieces_from(repl@, pos as int),
                        ensures
                            v.deep_view() == head + nonempty_pieces_from(repl@, k0 + 1),
                        decreases m - pos,
                    {
                        let ghost v_old = v.deep_view();
                        match crate::strutil::find_char_at(rs, m, '\0', pos) {
                            Some(k) => {
                                if k > pos {
                                    v.push(String::from_str(rs.substring_char(pos, k)));
                                    proof {
                                        assert(v.deep_view() =~= v_old.push(
                                            repl@.subrange(pos as int, k as int),
                                        ));
                                        assert(v_old + nonempty_pieces_from(repl@, pos as int)
                                            =~= v.deep_view() + nonempty_pieces_from(
                                            repl@,
                                            k + 1,
                                        ));
                                    }
                                } else {
                                    proof {
                                        assert(v_old + nonempty_pieces_from(repl@, pos as int)
                                            =~= v.deep_view() + nonempty_pieces_from(
                                            repl@,
                                            k + 1,
                                        ));
                                    }
                                }
                                pos = k + 1;
                            },
                            None => {
                                if pos < m {
                                    v.push(String::from_str(rs.substring_char(pos, m)));
                                    proof {
                                        assert(v.deep_view() =~= v_old.push(
                                            repl@.subrange(pos as int, m as int),
                                        ));
                                        assert(v_old + nonempty_pieces_from(repl@, pos as int)
                                            =~= v.deep_view());
                                    }
                                } else {
                                    proof {
                                        assert(v_old + nonempty_pieces_from(repl@, pos as int)
                                            =~= v.deep_view());
                                    }
                                }
                                break;
                            },
                        }
                    }
                    proof {
                        first_done = v.deep_view();
                    }
                },
            }
            let ghost expanded = v.deep_view();
            let mut j: usize = 1;
            while j < tokens.len()
                invariant
                    1 <= j <= tokens@.len(),
                    toksv == tokens.deep_view(),
                    toksv.len() == tokens@.len(),
                    v.deep_view() == expanded + toksv.subrange(1, j as int),
                decreases tokens@.len() - j,
            {
                let ghost v_old = v.deep_view();
                v.push(tokens[j].clone());
                proof {
                    assert(v.deep_view() =~= v_old.push(toksv[j as int]));
                    assert(expanded + toksv.subrange(1, j + 1) =~= v.deep_view());
                }
                j = j + 1;
            }
            proof {
                assert(toksv.subrange(1, toksv.len() as int) =~= toksv.drop_first());
                assert(v.deep_view() =~= expand_with(repl@, toksv.drop_first()));
            }
            v
        },
    }
}

/// What one statement asks the shell to do.
#[derive(Debug, PartialEq, Eq, Clone)]
pub enum Action {
    /// Nothing to do: the statement held no token.
    Empty,
    /// The `cd` builtin, with the directory to change to.
    ChangeDir(String),
    /// The `cd` builtin was called with two or more arguments: nothing is
    /// touched and the exit status becomes 1.
    UsageError,
    /// An external command: the argv to hand to the path search, its first
    /// entry the binary name.
    Exec(Vec<String>),
}

/// Spec-level mirror of `Action`.
pub enum ActionV {
    Empty,
    ChangeDir(Seq<char>),
    UsageError,
    Exec(Seq<Seq<char>>),
}

impl View for Action {
    type V = ActionV;

    open spec fn view(&self) -> ActionV {
        match self {
            Action::Empty => ActionV::Empty,
            Action::ChangeDir(d) => ActionV::ChangeDir(d@),
            Action::UsageError => ActionV::UsageError,
            Action::Exec(argv) => ActionV::Exec(argv.deep_view()),
        }
    }
}

/// The token naming the only builtin.
pub open spec fn cd_kw() -> Seq<char> {
    seq!['c', 'd']
}

/// What one trimmed statement resolves to.  A single leading backslash is
/// stripped and disables alias expansion for this statement only.  The
/// `cd` builtin is recognized on the bare tokens, before any alias
/// expansion, and never searches the path: without an argument it changes
/// to the home directory, with one argument to that path, and with more it
/// is a usage error.  Any other command becomes an argv, alias-expanded by
/// one level unless escaped.
pub open spec fn spec_resolve(stmt: Seq<char>, aliases: Seq<AliasV>, home: Seq<char>) -> ActionV {
    let escaped = stmt.len() > 0 && stmt[0] == '\\';
    let body = if escaped {
        stmt.drop_first()
    } else {
        stmt
    };
    let toks = spec_tokens(body);
    if toks.len() == 0 {
        ActionV::Empty
    } else if toks[0] == cd_kw() {
        if toks.len() > 2 {
            ActionV::UsageError
        } else if toks.len() == 1 {
            ActionV::ChangeDir(home)
        } else {
            ActionV::ChangeDir(toks[1])
        }
    } else {
        ActionV::Exec(
            if escaped {
                toks
            } else {
                spec_expand(toks, aliases)
            },
        )
    }
}

/// Whether a token is the `cd` keyword.
fn is_cd(t: &String) -> (r: bool)
    ensures
        r == (t@ == cd_kw()),
{
    let s = t.as_str();
    let n = s.unicode_len();
    if n != 2 {
        proof {
            assert(cd_kw().len() == 2);
        }
        return false;
    }
    let r = s.get_char(0) == 'c' && s.get_char(1) == 'd';
    proof {
        if r {
            assert(t@ =~= cd_kw());
        } else {
            if t@ == cd_kw() {
                assert(t@[0] == 'c' && t@[1] == 'd');
                assert(false);
            }
        }
    }
    r
}

/// Resolves one trimmed statement against the alias table and the home
/// directory.
pub fn resolve_statement(stmt: &str, aliases: &Vec<Alias>, home_dir: &str) -> (a: Action)
    ensures
        a@ == spec_resolve(stmt@, aliases_view(aliases@), home_dir@),
{
    let n = stmt.unicode_len();
    let escaped = n > 0 && stmt.get_char(0) == '\\';
    let body: &str = if escaped {
        stmt.substring_char(1, n)
    } else {
        stmt
    };
    proof {
        if escaped {
            assert(body@ =~= stmt@.drop_first());
        }
    }
    let toks = tokenize(body);
    if toks.len() == 0 {
        return Action::Empty;
    }
    proof {
        assert(toks.deep_view()[0] == toks@[0]@);
    }
    if is_cd(&toks[0]) {
        if toks.len() > 2 {
            Action::UsageError
        } else if toks.len() == 1 {
            Action::ChangeDir(String::from_str(home_dir))
        } else {
            proof {
                assert(toks.deep_view()[1] == toks@[1]@);
            }
            Action::ChangeDir(toks[1].clone())
        }
    } else {
        if escaped {
            Action::Exec(toks)
        } else {
            Action::Exec(expand_alias(toks, aliases))
        }
    }
}

/// The exit status after the `cd` builtin: unchanged when the directory
/// change succeeded, 1 when it failed or its arguments were wrong.
pub fn cd_exit_status(previous: i32, changed: bool) -> (r: i32)
    ensures
        r == (if changed {
            previous
        } else {
            1i32
        }),
{
    if changed {
        previous
    } else {
        1
    }
}

/// A statement beginning with a single backslash executes literally: the
/// backslash is stripped and, when the remaining tokens name an external
/// command, the argv is exactly those tokens, with no alias expansion,
/// whatever the alias table holds.
pub proof fn lemma_escape_disables_alias(stmt: Seq<char>, aliases: Seq<AliasV>, home: Seq<char>)
    requires
        stmt.len() > 0,
        stmt[0] == '\\',
        spec_tokens(stmt.drop_first()).len() > 0,
        spec_tokens(stmt.drop_first())[0] != cd_kw(),
    ensures
        spec_resolve(stmt, aliases, home) == ActionV::Exec(spec_tokens(stmt.drop_first())),
{
}

} // verus!
