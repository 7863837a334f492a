//! Character classes and text scanning primitives of the grammar: identifier
//! and whitespace runs, searches for `+`, quotes and parentheses, and the
//! parenthesis balance.  Every executable scanner is proved to compute the
//! corresponding spec function over the text's view.

use vstd::prelude::*;
use vstd::string::StrSliceExecFns;

verus! {

/// First character of an identifier: a letter or an underscore.
pub open spec fn is_name_start(c: char) -> bool {
    let u = c as u32;
    (('a' as u32) <= u && u <= ('z' as u32)) || (('A' as u32) <= u && u <= ('Z' as u32)) || c
        == '_'
}

/// Later character of an identifier: a letter, a digit, `_` or `-`.
pub open spec fn is_name_char(c: char) -> bool {
    is_name_start(c) || is_digit(c) || c == '-'
}

/// A decimal digit.
pub open spec fn is_digit(c: char) -> bool {
    c == '0' || c == '1' || c == '2' || c == '3' || c == '4' || c == '5' || c == '6' || c == '7'
        || c == '8' || c == '9'
}

/// Whitespace, as the grammar's separators understand it.
pub open spec fn is_blank(c: char) -> bool {
    c == ' ' || c == '\t' || c == '\n' || c == '\r' || c == '\x0b' || c == '\x0c'
}

/// End of the run of characters satisfying `p` that starts at `i`.
pub open spec fn run_end(s: Seq<char>, i: nat, p: spec_fn(char) -> bool) -> nat
    decreases s.len() - i,
{
    if i < s.len() && p(s[i as int]) {
        run_end(s, i + 1, p)
    } else {
        i
    }
}

pub proof fn lemma_run_end(s: Seq<char>, i: nat, p: spec_fn(char) -> bool)
    requires
        i <= s.len(),
    ensures
        i <= run_end(s, i, p) <= s.len(),
        forall|j: int| i <= j < run_end(s, i, p) ==> p(s[j]),
        run_end(s, i, p) < s.len() ==> !p(s[run_end(s, i, p) as int]),
    decreases s.len() - i,
{
    if i < s.len() && p(s[i as int]) {
        lemma_run_end(s, i + 1, p);
    }
}

/// A run that reaches the end of the text: every remaining character satisfies `p`.
pub proof fn lemma_run_end_full(s: Seq<char>, i: nat, p: spec_fn(char) -> bool)
    requires
        i <= s.len(),
        forall|j: int| i <= j < s.len() ==> p(s[j]),
    ensures
        run_end(s, i, p) == s.len(),
    decreases s.len() - i,
{
    if i < s.len() && p(s[i as int]) {
        lemma_run_end_full(s, i + 1, p);
    }
}

pub open spec fn name_run(s: Seq<char>, i: nat) -> nat {
    run_end(s, i, |c: char| is_name_char(c))
}

pub open spec fn blank_run(s: Seq<char>, i: nat) -> nat {
    run_end(s, i, |c: char| is_blank(c))
}

pub open spec fn digit_run(s: Seq<char>, i: nat) -> nat {
    run_end(s, i, |c: char| is_digit(c))
}

/// Start of the run of blanks that ends just before position `i`.
pub open spec fn blank_start(s: Seq<char>, i: nat) -> nat
    decreases i,
{
    if i > 0 && i <= s.len() && is_blank(s[i - 1]) {
        blank_start(s, (i - 1) as nat)
    } else {
        i
    }
}

pub proof fn lemma_blank_start(s: Seq<char>, i: nat)
    requires
        i <= s.len(),
    ensures
        blank_start(s, i) <= i,
        forall|j: int| blank_start(s, i) <= j < i ==> is_blank(s[j]),
        blank_start(s, i) > 0 ==> !is_blank(s[blank_start(s, i) - 1]),
    decreases i,
{
    if i > 0 && is_blank(s[i - 1]) {
        lemma_blank_start(s, (i - 1) as nat);
    }
}

/// First position `p >= i` holding `+` that also leaves at least one
/// character after it; the length of `s` when there is none.
pub open spec fn plus_from(s: Seq<char>, i: nat) -> nat
    decreases s.len() - i,
{
    if i + 1 >= s.len() {
        s.len()
    } else if s[i as int] == '+' {
        i
    } else {
        plus_from(s, i + 1)
    }
}

pub proof fn lemma_plus_from(s: Seq<char>, i: nat)
    requires
        i >= 1,
    ensures
        plus_from(s, i) <= s.len(),
        plus_from(s, i) < s.len() ==> i <= plus_from(s, i) && plus_from(s, i) + 1 < s.len()
            && s[plus_from(s, i) as int] == '+',
        forall|j: int| i <= j < plus_from(s, i) && j + 1 < s.len() ==> s[j] != '+',
    decreases s.len() - i,
{
    if i + 1 < s.len() && s[i as int] != '+' {
        lemma_plus_from(s, i + 1);
    }
}

/// First position `j >= i` holding the character `c`; the length of `s` when
/// there is none.
pub open spec fn find_char(s: Seq<char>, i: nat, c: char) -> nat
    decreases s.len() - i,
{
    if i >= s.len() {
        s.len()
    } else if s[i as int] == c {
        i
    } else {
        find_char(s, i + 1, c)
    }
}

pub proof fn lemma_find_char(s: Seq<char>, i: nat, c: char)
    requires
        i <= s.len(),
    ensures
        i <= find_char(s, i, c) <= s.len(),
        find_char(s, i, c) < s.len() ==> s[find_char(s, i, c) as int] == c,
        forall|j: int| i <= j < find_char(s, i, c) ==> s[j] != c,
    decreases s.len() - i,
{
    if i < s.len() && s[i as int] != c {
        lemma_find_char(s, i + 1, c);
    }
}

/// Index of the last closing parenthesis, `-1` when there is none.
pub open spec fn last_rparen(s: Seq<char>) -> int
    decreases s.len(),
{
    if s.len() == 0 {
        -1
    } else if s[s.len() - 1] == ')' {
        s.len() - 1
    } else {
        last_rparen(s.drop_last())
    }
}

pub proof fn lemma_last_rparen(s: Seq<char>)
    ensures
        -1 <= last_rparen(s) < s.len(),
        last_rparen(s) >= 0 ==> s[last_rparen(s)] == ')',
        forall|j: int| last_rparen(s) < j < s.len() ==> s[j] != ')',
    decreases s.len(),
{
    if s.len() > 0 && s[s.len() - 1] != ')' {
        lemma_last_rparen(s.drop_last());
        assert forall|j: int| last_rparen(s) < j < s.len() implies s[j] != ')' by {
            if j < s.len() - 1 {
                assert(s.drop_last()[j] == s[j]);
            }
        }
    }
}

/// What a character contributes to the parenthesis balance.
pub open spec fn paren_delta(c: char) -> int {
    if c == '(' {
        1
    } else if c == ')' {
        -1
    } else {
        0
    }
}

/// Count of `(` minus count of `)`.
pub open spec fn paren_bal(s: Seq<char>) -> int
    decreases s.len(),
{
    if s.len() == 0 {
        0
    } else {
        paren_bal(s.drop_last()) + paren_delta(s[s.len() - 1])
    }
}

/// The comment pattern: `//` somewhere in the line.
pub open spec fn comment_match(s: Seq<char>) -> bool {
    exists|i: int| 0 <= i && i + 1 < s.len() && (#[trigger] s[i]) == '/' && s[i + 1] == '/'
}

// ---------------------------------------------------------------------------
// Executable scanners, each proved against the spec function above.
// ---------------------------------------------------------------------------

pub fn name_start_char(c: char) -> (b: bool)
    ensures
        b == is_name_start(c),
{
    let u = c as u32;
    (('a' as u32) <= u && u <= ('z' as u32)) || (('A' as u32) <= u && u <= ('Z' as u32)) || c
        == '_'
}

pub fn digit_char_at(c: char) -> (b: bool)
    ensures
        b == is_digit(c),
{
    c == '0' || c == '1' || c == '2' || c == '3' || c == '4' || c == '5' || c == '6' || c == '7'
        || c == '8' || c == '9'
}

pub fn name_char_at(c: char) -> (b: bool)
    ensures
        b == is_name_char(c),
{
    name_start_char(c) || digit_char_at(c) || c == '-'
}

pub fn blank_char_at(c: char) -> (b: bool)
    ensures
        b == is_blank(c),
{
    c == ' ' || c == '\t' || c == '\n' || c == '\r' || c == '\x0b' || c == '\x0c'
}

pub fn scan_name_run(s: &str, i: usize) -> (r: usize)
    requires
        i <= s@.len(),
    ensures
        r == name_run(s@, i as nat),
{
    let len = s.unicode_len();
    let mut j = i;
    while j < len && name_char_at(s.get_char(j))
        invariant
            i <= j <= len,
            len == s@.len(),
            name_run(s@, i as nat) == name_run(s@, j as nat),
        decreases len - j,
    {
        j = j + 1;
    }
    j
}

pub fn scan_blank_run(s: &str, i: usize) -> (r: usize)
    requires
        i <= s@.len(),
    ensures
        r == blank_run(s@, i as nat),
{
    let len = s.unicode_len();
    let mut j = i;
    while j < len && blank_char_at(s.get_char(j))
        invariant
            i <= j <= len,
            len == s@.len(),
            blank_run(s@, i as nat) == blank_run(s@, j as nat),
        decreases len - j,
    {
        j = j + 1;
    }
    j
}

pub fn scan_digit_run(s: &str, i: usize) -> (r: usize)
    requires
        i <= s@.len(),
    ensures
        r == digit_run(s@, i as nat),
{
    let len = s.unicode_len();
    let mut j = i;
    while j < len && digit_char_at(s.get_char(j))
        invariant
            i <= j <= len,
            len == s@.len(),
            digit_run(s@, i as nat) == digit_run(s@, j as nat),
        decreases len - j,
    {
        j = j + 1;
    }
    j
}

pub fn scan_blank_start(s: &str, i: usize) -> (r: usize)
    requires
        i <= s@.len(),
    ensures
        r == blank_start(s@, i as nat),
{
    let mut j = i;
    while j > 0 && blank_char_at(s.get_char(j - 1))
        invariant
            j <= i <= s@.len(),
            blank_start(s@, i as nat) == blank_start(s@, j as nat),
        decreases j,
    {
        j = j - 1;
    }
    j
}

pub fn scan_plus_from(s: &str, i: usize) -> (r: usize)
    requires
        1 <= i,
    ensures
        r == plus_from(s@, i as nat),
{
    let len = s.unicode_len();
    let mut j = i;
    loop
        invariant
            1 <= i <= j,
            len == s@.len(),
            plus_from(s@, i as nat) == plus_from(s@, j as nat),
        decreases len - j,
    {
        if j >= len {
            return len;
        }
        if j + 1 >= len {
            return len;
        }
        if s.get_char(j) == '+' {
            return j;
        }
        j = j + 1;
    }
}

pub fn scan_find_char(s: &str, i: usize, c: char) -> (r: usize)
    requires
        i <= s@.len(),
    ensures
        r == find_char(s@, i as nat, c),
{
    let len = s.unicode_len();
    let mut j = i;
    while j < len && s.get_char(j) != c
        invariant
            i <= j <= len,
            len == s@.len(),
            find_char(s@, i as nat, c) == find_char(s@, j as nat, c),
        decreases len - j,
    {
        j = j + 1;
    }
    j
}

pub fn scan_last_rparen(s: &str) -> (r: Option<usize>)
    ensures
        match r {
            Some(k) => last_rparen(s@) == k,
            None => last_rparen(s@) == -1,
        },
{
    let len = s.unicode_len();
    let mut j = len;
    proof {
        assert(s@.subrange(0, len as int) =~= s@);
    }
    loop
        invariant
            j <= len,
            len == s@.len(),
            last_rparen(s@) == last_rparen(s@.subrange(0, j as int)),
        decreases j,
    {
        if j == 0 {
            proof {
                assert(s@.subrange(0, 0).len() == 0);
            }
            return None;
        }
        let c = s.get_char(j - 1);
        proof {
            assert(s@.subrange(0, j as int).len() == j);
            assert(s@.subrange(0, j as int)[j - 1] == s@[j - 1]);
            assert(s@.subrange(0, j as int).drop_last() =~= s@.subrange(0, j - 1));
        }
        if c == ')' {
            return Some(j - 1);
        }
        j = j - 1;
    }
}

pub fn scan_paren_bal_zero(s: &str) -> (b: bool)
    ensures
        b == (paren_bal(s@) == 0),
{
    let len = s.unicode_len();
    let mut bal: i128 = 0;
    let mut j: usize = 0;
    while j < len
        invariant
            j <= len,
            len == s@.len(),
            bal == paren_bal(s@.subrange(0, j as int)),
            -(j as int) <= bal <= j as int,
        decreases len - j,
    {
        let c = s.get_char(j);
        proof {
            assert(s@.subrange(0, j + 1).drop_last() =~= s@.subrange(0, j as int));
            assert(s@.subrange(0, j + 1)[j as int] == s@[j as int]);
        }
        if c == '(' {
            bal = bal + 1;
        } else if c == ')' {
            bal = bal - 1;
        }
        j = j + 1;
    }
    proof {
        assert(s@.subrange(0, len as int) =~= s@);
    }
    bal == 0
}

pub fn scan_comment(s: &str) -> (b: bool)
    ensures
        b == comment_match(s@),
{
    let len = s.unicode_len();
    if len < 2 {
        return false;
    }
    let mut j: usize = 0;
    while j + 1 < len
        invariant
            j + 1 <= len,
            len == s@.len(),
            forall|i: int| 0 <= i < j ==> !((#[trigger] s@[i]) == '/' && s@[i + 1] == '/'),
        decreases len - j,
    {
        if s.get_char(j) == '/' && s.get_char(j + 1) == '/' {
            return true;
        }
        j = j + 1;
    }
    false
}

/// Character-by-character string equality; vstd specifies `String == String`
/// but the interpreter compares borrowed slices.
pub fn str_eq(a: &str, b: &str) -> (r: bool)
    ensures
        r == (a@ == b@),
{
    let la = a.unicode_len();
    let lb = b.unicode_len();
    if la != lb {
        proof {
            assert(a@ != b@);
        }
        return false;
    }
    let mut j: usize = 0;
    while j < la
        invariant
            j <= la,
            la == a@.len(),
            la == b@.len(),
            forall|i: int| 0 <= i < j ==> a@[i] == b@[i],
        decreases la - j,
    {
        if a.get_char(j) != b.get_char(j) {
            proof {
                assert(a@[j as int] != b@[j as int]);
            }
            return false;
        }
        j = j + 1;
    }
    proof {
        assert(a@ =~= b@);
    }
    true
}

} // verus!
