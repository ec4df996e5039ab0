//! The transport selector: which handshake protocol an attempt speaks.

use std::str::FromStr;
use vstd::prelude::*;
use vstd::string::StrSliceExecFns;

verus! {

/// The two handshake protocols that an attempt can be made with.
#[derive(Debug, Clone, Copy, PartialEq, Eq, Structural)]
pub enum Transport {
    /// TLS over a TCP stream.
    Tcp,
    /// QUIC over UDP datagrams.
    Quic,
}

/// The error for a token that names no transport.
#[derive(Debug, Clone, Copy, PartialEq, Eq, Structural)]
pub struct UnrecognizedTransport;

/// Whether `c` is the small Latin letter `small` or its capital.
pub open spec fn same_letter(c: char, small: char) -> bool {
    c == small || c as int + 32 == small as int
}

/// Whether `token` is `word`, letter for letter, in any mix of cases. `word`
/// is made of small Latin letters.
pub open spec fn spells(token: Seq<char>, word: Seq<char>) -> bool {
    &&& token.len() == word.len()
    &&& forall|i: int| 0 <= i < word.len() ==> same_letter(#[trigger] token[i], word[i])
}

/// The transport that a token names, if it names one.
pub open spec fn parse_spec(token: Seq<char>) -> Result<Transport, UnrecognizedTransport> {
    if spells(token, seq!['t', 'c', 'p']) {
        Ok(Transport::Tcp)
    } else if spells(token, seq!['q', 'u', 'i', 'c']) {
        Ok(Transport::Quic)
    } else {
        Err(UnrecognizedTransport)
    }
}

/// Whether `c` is the small Latin letter `small` or its capital.
fn is_letter(c: char, small: char) -> (r: bool)
    ensures
        r == same_letter(c, small),
{
    c == small || c as u32 + 32 == small as u32
}

impl UnrecognizedTransport {
    /// What to tell the user.
    pub fn message(&self) -> (r: &'static str)
        ensures
            r@ == "unknown transport"@,
    {
        "unknown transport"
    }
}

impl FromStr for Transport {
    type Err = UnrecognizedTransport;

    /// Reads a transport from its name: `tcp` or `quic`, in any mix of
    /// cases. Every other token is refused.
    fn from_str(token: &str) -> (r: Result<Transport, UnrecognizedTransport>)
        ensures
            r == parse_spec(token@),
    {
        let n: usize = token.unicode_len();
        if n == 3 {
            if is_letter(token.get_char(0), 't') && is_letter(token.get_char(1), 'c') && is_letter(
                token.get_char(2),
                'p',
            ) {
                return Ok(Transport::Tcp);
            }
        } else if n == 4 {
            if is_letter(token.get_char(0), 'q') && is_letter(token.get_char(1), 'u') && is_letter(
                token.get_char(2),
                'i',
            ) && is_letter(token.get_char(3), 'c') {
                return Ok(Transport::Quic);
            }
        }
        Err(UnrecognizedTransport)
    }
}

/// Reading a token depends on nothing but the token: two readings of the
/// same text give the same transport or the same error.
pub proof fn lemma_parse_is_a_function(first: Seq<char>, second: Seq<char>)
    requires
        first == second,
    ensures
        parse_spec(first) == parse_spec(second),
{
}

/// Whether `small` is a small Latin letter and `capital` its capital.
pub open spec fn letter_pair(small: char, capital: char) -> bool {
    'a' as int <= small as int <= 'z' as int && capital as int + 32 == small as int
}

/// The case of the letters does not matter: a token and the same token with
/// one letter switched between small and capital read alike.
pub proof fn lemma_parse_ignores_case(token: Seq<char>, at: int, other: char)
    requires
        0 <= at < token.len(),
        letter_pair(token[at], other) || letter_pair(other, token[at]),
    ensures
        parse_spec(token.update(at, other)) == parse_spec(token),
{
    let changed = token.update(at, other);
    let tcp = seq!['t', 'c', 'p'];
    let quic = seq!['q', 'u', 'i', 'c'];
    assert forall|word: Seq<char>|
        (word == tcp || word == quic) implies spells(changed, word) == spells(token, word) by {
        if token.len() == word.len() {
            assert('a' as int <= word[at] as int <= 'z' as int) by {
                assert(tcp[0] == 't' && tcp[1] == 'c' && tcp[2] == 'p');
                assert(quic[0] == 'q' && quic[1] == 'u' && quic[2] == 'i' && quic[3] == 'c');
            }
            assert(same_letter(changed[at], word[at]) == same_letter(token[at], word[at]));
            if spells(token, word) {
                assert forall|i: int| 0 <= i < word.len() implies same_letter(
                    #[trigger] changed[i],
                    word[i],
                ) by {
                    assert(same_letter(token[i], word[i]));
                }
            }
            if spells(changed, word) {
                assert forall|i: int| 0 <= i < word.len() implies same_letter(
                    #[trigger] token[i],
                    word[i],
                ) by {
                    assert(same_letter(changed[i], word[i]));
                }
            }
        }
    }
}

} // verus!
