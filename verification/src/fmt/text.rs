use vstd::prelude::*;

verus! {

/// The bytes of `"end"`.
pub const END: [u8; 3] = [101, 110, 100];

/// The bytes of `"if"`.
pub const IF: [u8; 2] = [105, 102];

/// The bytes of `"unless"`.
pub const UNLESS: [u8; 6] = [117, 110, 108, 101, 115, 115];

/// The bytes of `"elsif"`.
pub const ELSIF: [u8; 5] = [101, 108, 115, 105, 102];

/// The bytes of `"else"`.
pub const ELSE: [u8; 4] = [101, 108, 115, 101];

/// The bytes of `"when"`.
pub const WHEN: [u8; 4] = [119, 104, 101, 110];

/// The bytes of `"in"`.
pub const IN: [u8; 2] = [105, 110];

/// The bytes of `"case"`.
pub const CASE: [u8; 4] = [99, 97, 115, 101];

/// The bytes of `" then "`.
pub const THEN: [u8; 6] = [32, 116, 104, 101, 110, 32];

/// The bytes of `"while"`.
pub const WHILE: [u8; 5] = [119, 104, 105, 108, 101];

/// The bytes of `"until"`.
pub const UNTIL: [u8; 5] = [117, 110, 116, 105, 108];

/// The bytes of `"for"`.
pub const FOR: [u8; 3] = [102, 111, 114];

/// The bytes of `" in"`.
pub const SPACE_IN: [u8; 3] = [32, 105, 110];

/// The bytes of `"def"`.
pub const DEF: [u8; 3] = [100, 101, 102];

/// The bytes of `" ="`.
pub const SPACE_EQ: [u8; 2] = [32, 61];

/// The bytes of `"alias "`.
pub const ALIAS: [u8; 6] = [97, 108, 105, 97, 115, 32];

/// The bytes of `"rescue"`.
pub const RESCUE: [u8; 6] = [114, 101, 115, 99, 117, 101];

/// The bytes of `" =>"`.
pub const SPACE_ARROW: [u8; 3] = [32, 61, 62];

/// The bytes of `"ensure"`.
pub const ENSURE: [u8; 6] = [101, 110, 115, 117, 114, 101];

/// The bytes of `"begin"`.
pub const BEGIN: [u8; 5] = [98, 101, 103, 105, 110];

/// The bytes of `"class <<"`.
pub const CLASS_SINGLETON: [u8; 8] = [99, 108, 97, 115, 115, 32, 60, 60];

/// The bytes of `"->"`.
pub const LAMBDA_ARROW: [u8; 2] = [45, 62];

/// The bytes of `"::"`.
pub const COLON2: [u8; 2] = [58, 58];

/// The bytes of `","`.
pub const COMMA: [u8; 1] = [44];

/// The bytes of `", "`.
pub const COMMA_SPACE: [u8; 2] = [44, 32];

/// The bytes of `" ?"`.
pub const SPACE_QUESTION: [u8; 2] = [32, 63];

/// The bytes of `" : "`.
pub const SPACE_COLON_SPACE: [u8; 3] = [32, 58, 32];

/// The bytes of `"()"`.
pub const EMPTY_PARENS: [u8; 2] = [40, 41];

/// The bytes of `"<<"`.
pub const HEREDOC_PLAIN: [u8; 2] = [60, 60];

/// The bytes of `"<<-"`.
pub const HEREDOC_DASH: [u8; 3] = [60, 60, 45];

/// The bytes of `"<<~"`.
pub const HEREDOC_SQUIGGLY: [u8; 3] = [60, 60, 126];

/// The bytes of `" |"`.
pub const SPACE_PIPE: [u8; 2] = [32, 124];

/// The bytes of `" | "`.
pub const SPACE_PIPE_SPACE: [u8; 3] = [32, 124, 32];

/// The bytes of `" <"`.
pub const SPACE_LT: [u8; 2] = [32, 60];

/// The bytes of `"["`.
pub const LBRACKET: [u8; 1] = [91];

/// The bytes of `"]"`.
pub const RBRACKET: [u8; 1] = [93];

/// The bytes of `" {"`.
pub const SPACE_LBRACE: [u8; 2] = [32, 123];

/// The bytes of `"; "`.
pub const SEMI_SPACE: [u8; 2] = [59, 32];

/// The bytes of `" "`.
pub const SPACE: [u8; 1] = [32];

/// The bytes of `"#{"`.
pub const HASH_LBRACE: [u8; 2] = [35, 123];

/// The length of an optional piece of text, zero when it is absent.
pub open spec fn spec_opt_len(t: Option<Vec<u8>>) -> nat {
    match t {
        Some(t) => t@.len(),
        None => 0,
    }
}

pub fn opt_len(t: &Option<Vec<u8>>) -> (n: usize)
    ensures
        n == spec_opt_len(*t),
{
    match t {
        Some(t) => t.len(),
        None => 0,
    }
}

pub open spec fn opt_view(t: Option<Vec<u8>>) -> Option<Seq<u8>> {
    match t {
        Some(t) => Some(t@),
        None => None,
    }
}

/// A copy of `s` in a vector.
pub fn to_bytes(s: &[u8]) -> (v: Vec<u8>)
    ensures
        v@ == s@,
{
    let mut v: Vec<u8> = Vec::new();
    let mut i: usize = 0;
    while i < s.len()
        invariant
            0 <= i <= s@.len(),
            v@ == s@.subrange(0, i as int),
        decreases s@.len() - i,
    {
        v.push(s[i]);
        i = i + 1;
        assert(s@.subrange(0, i as int) == s@.subrange(0, i - 1).push(s@[i - 1]));
    }
    assert(s@.subrange(0, s@.len() as int) == s@);
    v
}

pub fn bytes_eq(a: &[u8], b: &[u8]) -> (r: bool)
    ensures
        r == (a@ == b@),
{
    if a.len() != b.len() {
        return false;
    }
    let mut i: usize = 0;
    while i < a.len()
        invariant
            a@.len() == b@.len(),
            0 <= i <= a@.len(),
            forall|j: int| 0 <= j < i ==> a@[j] == b@[j],
        decreases a@.len() - i,
    {
        if a[i] != b[i] {
            return false;
        }
        i = i + 1;
    }
    assert(a@ =~= b@);
    true
}

/// Some byte of `s` is `b`.
pub open spec fn has_byte(s: Seq<u8>, b: u8) -> bool {
    exists|i: int| 0 <= i < s.len() && s[i] == b
}

pub fn contains_byte(s: &[u8], b: u8) -> (r: bool)
    ensures
        r == has_byte(s@, b),
{
    let mut i: usize = 0;
    while i < s.len()
        invariant
            0 <= i <= s@.len(),
            forall|j: int| 0 <= j < i ==> s@[j] != b,
        decreases s@.len() - i,
    {
        if s[i] == b {
            return true;
        }
        i = i + 1;
    }
    false
}

} // verus!
