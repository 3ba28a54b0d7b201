use vstd::prelude::*;

verus! {

/// A character counts as whitespace for tokenization: the ASCII blank
/// characters that delimit tokens in the startup file and in input lines.
pub open spec fn is_space(c: char) -> bool {
    c == ' ' || c == '\t' || c == '\n' || c == '\r' || c == '\u{b}' || c == '\u{c}'
}

/// Whether a character is recognized as whitespace by the executable code.
pub fn is_space_char(c: char) -> (r: bool)
    ensures
        r == is_space(c),
{
    c == ' ' || c == '\t' || c == '\n' || c == '\r' || c == '\u{b}' || c == '\u{c}'
}

/// The first index at or after `from` holding a non-space character,
/// or `s.len()` if only spaces remain.
pub open spec fn next_token_start(s: Seq<char>, from: int) -> int
    decreases s.len() - from when 0 <= from <= s.len()
{
    if from >= s.len() {
        s.len() as int
    } else if !is_space(s[from]) {
        from
    } else {
        next_token_start(s, from + 1)
    }
}

pub proof fn lemma_next_token_start_range(s: Seq<char>, from: int)
    requires
        0 <= from <= s.len(),
    ensures
        from <= next_token_start(s, from) <= s.len(),
        next_token_start(s, from) < s.len() ==> !is_space(s[next_token_start(s, from)]),
    decreases s.len() - from,
{
    if from < s.len() && is_space(s[from]) {
        lemma_next_token_start_range(s, from + 1);
    }
}

/// The first index at or after `from` holding a space character,
/// or `s.len()` if no space follows; the token starting at `from` ends here.
pub open spec fn token_end(s: Seq<char>, from: int) -> int
    decreases s.len() - from when 0 <= from <= s.len()
{
    if from >= s.len() {
        s.len() as int
    } else if is_space(s[from]) {
        from
    } else {
        token_end(s, from + 1)
    }
}

pub proof fn lemma_token_end_range(s: Seq<char>, from: int)
    requires
        0 <= from <= s.len(),
    ensures
        from <= token_end(s, from) <= s.len(),
    decreases s.len() - from,
{
    if from < s.len() && !is_space(s[from]) {
        lemma_token_end_range(s, from + 1);
    }
}

/// Finds the start of the next token at or after `from`.
pub fn find_token_start(s: &str, n: usize, from: usize) -> (r: usize)
    requires
        n == s@.len(),
        from <= n,
    ensures
        r == next_token_start(s@, from as int),
        from <= r <= n,
{
    let mut i: usize = from;
    while i < n && is_space_char(s.get_char(i))
        invariant
            from <= i <= n,
            n == s@.len(),
            next_token_start(s@, from as int) == next_token_start(s@, i as int),
        decreases n - i,
    {
        i = i + 1;
    }
    i
}

/// Finds the end of the token that starts at `from`.
pub fn find_token_end(s: &str, n: usize, from: usize) -> (r: usize)
    requires
        n == s@.len(),
        from <= n,
    ensures
        r == token_end(s@, from as int),
        from <= r <= n,
{
    let mut i: usize = from;
    while i < n && !is_space_char(s.get_char(i))
        invariant
            from <= i <= n,
            n == s@.len(),
            token_end(s@, from as int) == token_end(s@, i as int),
        decreases n - i,
    {
        i = i + 1;
    }
    i
}

/// The first index at or after `from` where `c` occurs, if any.
pub open spec fn find_char(s: Seq<char>, c: char, from: int) -> Option<int>
    decreases s.len() - from when 0 <= from <= s.len()
{
    if from >= s.len() {
        None
    } else if s[from] == c {
        Some(from)
    } else {
        find_char(s, c, from + 1)
    }
}

pub proof fn lemma_find_char_props(s: Seq<char>, c: char, from: int)
    requires
        0 <= from <= s.len(),
    ensures
        match find_char(s, c, from) {
            Some(j) => from <= j < s.len() && s[j] == c,
            None => forall|i: int| from <= i < s.len() ==> s[i] != c,
        },
    decreases s.len() - from,
{
    if from < s.len() && s[from] != c {
        lemma_find_char_props(s, c, from + 1);
    }
}

/// Finds the first occurrence of `c` at or after `from`.
pub fn find_char_at(s: &str, n: usize, c: char, from: usize) -> (r: Option<usize>)
    requires
        n == s@.len(),
        from <= n,
    ensures
        match r {
            Some(j) => from <= j < n && find_char(s@, c, from as int) == Some(j as int),
            None => find_char(s@, c, from as int) is None,
        },
{
    let mut i: usize = from;
    while i < n && s.get_char(i) != c
        invariant
            from <= i <= n,
            n == s@.len(),
            find_char(s@, c, from as int) == find_char(s@, c, i as int),
        decreases n - i,
    {
        i = i + 1;
    }
    if i < n {
        Some(i)
    } else {
        None
    }
}

/// Finds the first occurrence of `c` in the substring `[from, to)` of `s`,
/// stated over that substring.
pub fn find_char_in(s: &str, n: usize, c: char, from: usize, to: usize) -> (r: Option<usize>)
    requires
        n == s@.len(),
        from <= to <= n,
    ensures
        ({
            let sub = s@.subrange(from as int, to as int);
            match r {
                Some(j) => from <= j < to && find_char(sub, c, 0) == Some(j - from as int),
                None => find_char(sub, c, 0) is None,
            }
        }),
{
    let ghost sub = s@.subrange(from as int, to as int);
    let mut i: usize = from;
    while i < to && s.get_char(i) != c
        invariant
            from <= i <= to <= n,
            n == s@.len(),
            sub == s@.subrange(from as int, to as int),
            find_char(sub, c, 0) == find_char(sub, c, i - from as int),
        decreases to - i,
    {
        proof {
            assert(sub[i - from as int] == s@[i as int]);
        }
        i = i + 1;
    }
    if i < to {
        proof {
            assert(sub[i - from as int] == s@[i as int]);
        }
        Some(i)
    } else {
        None
    }
}

/// Whether `c` occurs anywhere in `s`.
pub open spec fn contains_char(s: Seq<char>, c: char) -> bool {
    exists|i: int| 0 <= i < s.len() && s[i] == c
}

/// Tests whether `c` occurs in the substring `[from, to)` of `s`.
pub fn contains_char_in(s: &str, n: usize, c: char, from: usize, to: usize) -> (r: bool)
    requires
        n == s@.len(),
        from <= to <= n,
    ensures
        r == contains_char(s@.subrange(from as int, to as int), c),
{
    let ghost sub = s@.subrange(from as int, to as int);
    let mut i: usize = from;
    while i < to
        invariant
            from <= i <= to <= n,
            n == s@.len(),
            sub == s@.subrange(from as int, to as int),
            forall|k: int| 0 <= k < i - from ==> sub[k] != c,
        decreases to - i,
    {
        if s.get_char(i) == c {
            assert(sub[i - from as int] == c);
            return true;
        }
        i = i + 1;
    }
    false
}

/// `s` with its trailing whitespace removed.
pub open spec fn end_trim(s: Seq<char>) -> Seq<char>
    decreases s.len(),
{
    if s.len() > 0 && is_space(s.last()) {
        end_trim(s.drop_last())
    } else {
        s
    }
}

/// Finds the position that ends `s[from..to]` once trailing whitespace is dropped.
pub fn end_trim_pos(s: &str, n: usize, from: usize, to: usize) -> (r: usize)
    requires
        n == s@.len(),
        from <= to <= n,
    ensures
        from <= r <= to,
        end_trim(s@.subrange(from as int, to as int)) == s@.subrange(from as int, r as int),
{
    let mut j: usize = to;
    while j > from && is_space_char(s.get_char(j - 1))
        invariant
            from <= j <= to <= n,
            n == s@.len(),
            end_trim(s@.subrange(from as int, to as int)) == end_trim(
                s@.subrange(from as int, j as int),
            ),
        decreases j,
    {
        proof {
            assert(s@.subrange(from as int, j as int).drop_last() =~= s@.subrange(
                from as int,
                j - 1,
            ));
        }
        j = j - 1;
    }
    j
}

/// Relies on `Iterator::collect` for `String` from std: the string built from
/// an iterator over characters holds exactly those characters in order.
#[verifier::external_body]
pub fn string_from_chars(v: &Vec<char>) -> (r: String)
    ensures
        r@ == v@,
{
    v.iter().collect()
}

/// Whether the token `[from, to)` of `s` is the single character `c`.
pub fn token_is_char(s: &str, n: usize, from: usize, to: usize, c: char) -> (r: bool)
    requires
        n == s@.len(),
        from <= to <= n,
    ensures
        r == (s@.subrange(from as int, to as int) == seq![c]),
{
    let ghost tok = s@.subrange(from as int, to as int);
    if to - from == 1 && s.get_char(from) == c {
        proof {
            assert(tok =~= seq![c]);
        }
        true
    } else {
        proof {
            if to - from != 1 {
                assert(tok.len() != 1);
            } else {
                assert(tok[0] != c);
            }
        }
        false
    }
}

} // verus!
