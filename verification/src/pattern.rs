//! Byte-pattern matcher: compiled signatures and buffer scanning.
//!
//! A signature is an ordered, non-empty sequence of tokens, each either an
//! exact byte value or a wildcard that matches any byte. Scanning finds the
//! lowest offset of a buffer at which every token matches.

use vstd::prelude::*;

verus! {

/// Rejection of a signature string that does not follow the pattern grammar.
#[derive(Clone, Copy, Debug, PartialEq, Eq, Structural)]
pub enum PatternError {
    InvalidPatternSyntax,
}

/// One element of a compiled signature: an exact byte value or a wildcard.
#[derive(Clone, Copy, Debug, PartialEq, Eq, Structural)]
pub enum SigToken {
    Byte(u8),
    Any,
}

/// Whether a single pattern token accepts the byte `b`.
pub open spec fn token_matches(t: SigToken, b: u8) -> bool {
    match t {
        SigToken::Byte(v) => v == b,
        SigToken::Any => true,
    }
}

/// Whether the token sequence `sig` matches `buf` at start offset `k`.
pub open spec fn matches_at(sig: Seq<SigToken>, buf: Seq<u8>, k: int) -> bool {
    &&& 0 <= k
    &&& k + sig.len() <= buf.len()
    &&& forall|j: int| 0 <= j < sig.len() ==> token_matches(sig[j], buf[k + j])
}

/// Whether `c` separates tokens of a signature string.
pub open spec fn sig_space(c: char) -> bool {
    c == ' ' || c == '\t' || c == '\n' || c == '\r'
}

/// Whether `c` is an ASCII hexadecimal digit.
pub open spec fn is_hex_digit(c: char) -> bool {
    ||| '0' as u32 <= c as u32 <= '9' as u32
    ||| 'a' as u32 <= c as u32 <= 'f' as u32
    ||| 'A' as u32 <= c as u32 <= 'F' as u32
}

/// The numeric value of an ASCII hexadecimal digit.
pub open spec fn hex_value(c: char) -> u8 {
    if '0' as u32 <= c as u32 <= '9' as u32 {
        (c as u32 - '0' as u32) as u8
    } else if 'a' as u32 <= c as u32 <= 'f' as u32 {
        (c as u32 - 'a' as u32 + 10) as u8
    } else if 'A' as u32 <= c as u32 <= 'F' as u32 {
        (c as u32 - 'A' as u32 + 10) as u8
    } else {
        0
    }
}

/// The pattern-string grammar, read from position `i`: space-separated
/// tokens, each either a single `?` (wildcard) or exactly two hexadecimal
/// digits (one byte). `None` means the string is not well-formed.
pub open spec fn parse_sig(s: Seq<char>, i: int) -> Option<Seq<SigToken>>
    decreases s.len() - i,
{
    if !(0 <= i < s.len()) {
        Some(Seq::empty())
    } else if sig_space(s[i]) {
        parse_sig(s, i + 1)
    } else if s[i] == '?' && (i + 1 == s.len() || sig_space(s[i + 1])) {
        match parse_sig(s, i + 1) {
            Some(rest) => Some(seq![SigToken::Any] + rest),
            None => None,
        }
    } else if is_hex_digit(s[i]) && i + 1 < s.len() && is_hex_digit(s[i + 1]) && (i + 2 == s.len()
        || sig_space(s[i + 2])) {
        match parse_sig(s, i + 2) {
            Some(rest) => Some(
                seq![SigToken::Byte((16 * hex_value(s[i]) + hex_value(s[i + 1])) as u8)] + rest,
            ),
            None => None,
        }
    } else {
        None
    }
}

/// `rest` with `pre` prepended to a successful parse.
spec fn with_prefix(pre: Seq<SigToken>, rest: Option<Seq<SigToken>>) -> Option<Seq<SigToken>> {
    match rest {
        Some(r) => Some(pre + r),
        None => None,
    }
}

/// A compiled byte-pattern signature.
///
/// Values are only built by [`Signature::compile`]; the token sequence is
/// never empty.
#[derive(Debug)]
pub struct Signature {
    tokens: Vec<SigToken>,
}

impl View for Signature {
    type V = Seq<SigToken>;

    closed spec fn view(&self) -> Seq<SigToken> {
        self.tokens@
    }
}

/// Whether `c` separates tokens.
fn is_sig_space(c: char) -> (b: bool)
    ensures
        b == sig_space(c),
{
    c == ' ' || c == '\t' || c == '\n' || c == '\r'
}

/// The numeric value of an ASCII hexadecimal digit, or 255 for any other
/// character.
fn hex_val(c: char) -> (v: u8)
    ensures
        is_hex_digit(c) ==> v == hex_value(c) && v < 16,
        !is_hex_digit(c) ==> v == 255,
{
    let u = c as u32;
    if 48 <= u && u <= 57 {
        (u - 48) as u8
    } else if 97 <= u && u <= 102 {
        (u - 97 + 10) as u8
    } else if 65 <= u && u <= 70 {
        (u - 65 + 10) as u8
    } else {
        255
    }
}

impl Signature {
    #[verifier::type_invariant]
    spec fn inv(&self) -> bool {
        self.tokens@.len() > 0
    }

    /// Compiles a whitespace-separated signature string: each token is either
    /// two hexadecimal digits (an exact byte) or `?` (any byte). An empty or
    /// ill-formed pattern is rejected.
    pub fn compile(pattern: &str) -> (r: Result<Signature, PatternError>)
        ensures
            match r {
                Ok(sig) => parse_sig(pattern@, 0) matches Some(toks) && toks.len() > 0 && sig@
                    == toks,
                Err(e) => e == PatternError::InvalidPatternSyntax && match parse_sig(
                    pattern@,
                    0,
                ) {
                    Some(toks) => toks.len() == 0,
                    None => true,
                },
            },
    {
        let n = pattern.unicode_len();
        let mut tokens: Vec<SigToken> = Vec::new();
        let mut i: usize = 0;
        while i < n
            invariant
                n == pattern@.len(),
                i <= n,
                parse_sig(pattern@, 0) == with_prefix(tokens@, parse_sig(pattern@, i as int)),
            decreases n - i,
        {
            let ghost done = tokens@;
            let c = pattern.get_char(i);
            if is_sig_space(c) {
                i += 1;
            } else if c == '?' && (i + 1 == n || is_sig_space(pattern.get_char(i + 1))) {
                tokens.push(SigToken::Any);
                proof {
                    if let Some(rest) = parse_sig(pattern@, i + 1) {
                        assert(done + (seq![SigToken::Any] + rest) =~= (done
                            + seq![SigToken::Any]) + rest);
                    }
                }
                i += 1;
            } else if i + 1 < n {
                let h1 = hex_val(c);
                let h2 = hex_val(pattern.get_char(i + 1));
                if h1 < 16 && h2 < 16 && (i + 2 == n || is_sig_space(pattern.get_char(i + 2))) {
                    let b: u8 = 16 * h1 + h2;
                    tokens.push(SigToken::Byte(b));
                    proof {
                        if let Some(rest) = parse_sig(pattern@, i + 2) {
                            assert(done + (seq![SigToken::Byte(b)] + rest) =~= (done
                                + seq![SigToken::Byte(b)]) + rest);
                        }
                    }
                    i += 2;
                } else {
                    return Err(PatternError::InvalidPatternSyntax);
                }
            } else {
                return Err(PatternError::InvalidPatternSyntax);
            }
        }
        proof {
            assert(parse_sig(pattern@, 0) == Some(tokens@)) by {
                assert(tokens@ + Seq::<SigToken>::empty() =~= tokens@);
            }
        }
        if tokens.len() == 0 {
            return Err(PatternError::InvalidPatternSyntax);
        }
        Ok(Signature { tokens })
    }

    /// Token-by-token comparison at one candidate start offset.
    fn matches_here(&self, buf: &Vec<u8>, k: usize) -> (b: bool)
        requires
            k + self@.len() <= buf.len(),
        ensures
            b == matches_at(self@, buf@, k as int),
    {
        let n = self.tokens.len();
        let mut j: usize = 0;
        while j < n
            invariant
                n == self@.len(),
                k + n <= buf.len(),
                j <= n,
                forall|i: int| 0 <= i < j ==> token_matches(self@[i], buf@[k + i]),
            decreases n - j,
        {
            match self.tokens[j] {
                SigToken::Byte(v) => {
                    if buf[k + j] != v {
                        return false;
                    }
                },
                SigToken::Any => {},
            }
            j += 1;
        }
        true
    }

    /// Direct search for the earliest match: every candidate start offset is
    /// tried in order and the first full token-by-token match wins.
    pub fn scan(&self, buf: &Vec<u8>) -> (r: Option<usize>)
        ensures
            match r {
                Some(k) => matches_at(self@, buf@, k as int) && (forall|j: int|
                    0 <= j < k ==> !matches_at(self@, buf@, j)),
                None => forall|j: int| !matches_at(self@, buf@, j),
            },
    {
        proof {
            use_type_invariant(self);
        }
        if self.tokens.len() > buf.len() {
            return None;
        }
        let last: usize = buf.len() - self.tokens.len();
        let mut k: usize = 0;
        while k <= last
            invariant
                self@.len() > 0,
                self@.len() <= buf.len(),
                last == buf.len() - self@.len(),
                k <= last + 1,
                forall|j: int| 0 <= j < k ==> !matches_at(self@, buf@, j),
            decreases last + 1 - k,
        {
            if self.matches_here(buf, k) {
                return Some(k);
            }
            k += 1;
        }
        None
    }
}

} // verus!
