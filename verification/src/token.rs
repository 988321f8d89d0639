//! Tokens of the SQL subset and the classification of accumulated text.

use vstd::prelude::*;
use vstd::string::StringExecFns;

verus! {

/// Mathematical model of a token: what a classified piece of text means,
/// with identifier text as a character sequence.
pub enum Token {
    Select,
    From,
    Comma,
    Identifier(Seq<char>),
}

/// A token as the lexer emits it. Identifiers carry the exact accumulated
/// character sequence, in the case the caller supplied.
#[allow(non_camel_case_types)]
#[derive(PartialEq, Eq, Debug)]
pub enum PostgresTk {
    SELECT,
    FROM,
    COMMA,
    IDENTIFIER(String),
}

/// The lexical error. Classification is permissive (every non-keyword text,
/// the empty text included, is an identifier), so no path produces this
/// value today; the kind is kept so that a stricter classification policy
/// can fail without changing any signature.
#[derive(PartialEq, Eq, Debug)]
pub enum LexErr {
    InvalidToken,
}

impl View for PostgresTk {
    type V = Token;

    open spec fn view(&self) -> Token {
        match self {
            PostgresTk::SELECT => Token::Select,
            PostgresTk::FROM => Token::From,
            PostgresTk::COMMA => Token::Comma,
            PostgresTk::IDENTIFIER(text) => Token::Identifier(text@),
        }
    }
}

/// What classification means: an exact, case-sensitive match against the
/// two keywords; any other text, the empty text included, is an identifier
/// carrying that text unchanged.
pub open spec fn classify_spec(text: Seq<char>) -> Token {
    if text == "select"@ {
        Token::Select
    } else if text == "from"@ {
        Token::From
    } else {
        Token::Identifier(text)
    }
}

/// Classification round trip: any text other than the two keywords is
/// classified as an identifier carrying exactly that text, unmodified.
pub proof fn lemma_classify_identifier_round_trip(text: Seq<char>)
    requires
        text != "select"@,
        text != "from"@,
    ensures
        classify_spec(text) == Token::Identifier(text),
{
}

/// Relies on `String::push`: appends the given character to the end of the
/// string.
#[verifier::external_body]
fn push_char(text: &mut String, c: char)
    ensures
        final(text)@ == old(text)@.push(c),
{
    text.push(c);
}

/// Builds the string holding exactly the given characters, in order.
fn string_of(chars: &Vec<char>) -> (text: String)
    ensures
        text@ == chars@,
{
    let mut text = String::new();
    let mut i: usize = 0;
    while i < chars.len()
        invariant
            i <= chars.len(),
            text@ == chars@.take(i as int),
        decreases chars.len() - i,
    {
        let c = chars[i];
        push_char(&mut text, c);
        proof {
            assert(chars@.take(i as int).push(chars@[i as int]) =~= chars@.take(i as int + 1));
        }
        i = i + 1;
    }
    proof {
        assert(chars@.take(chars@.len() as int) =~= chars@);
    }
    text
}

impl PostgresTk {
    /// Classifies an accumulated character buffer: `select` and `from`
    /// become the keywords, anything else becomes an identifier carrying
    /// the exact text. Never fails under this permissive policy.
    pub fn new(acc: Vec<char>) -> (r: Result<Self, LexErr>)
        ensures
            r is Ok,
            r matches Ok(tk) ==> tk@ == classify_spec(acc@),
    {
        let text = string_of(&acc);
        if text == String::from_str("select") {
            Ok(PostgresTk::SELECT)
        } else if text == String::from_str("from") {
            Ok(PostgresTk::FROM)
        } else {
            Ok(PostgresTk::IDENTIFIER(text))
        }
    }
}

} // verus!
