use vstd::prelude::*;
use vstd::string::*;
use unicode_segmentation::UnicodeSegmentation;

verus! {

/// Number of extended grapheme clusters in a character sequence, as Unicode
/// text segmentation defines them.
pub uninterp spec fn grapheme_count(s: Seq<char>) -> nat;

/// Relies on unicode_segmentation::UnicodeSegmentation::graphemes: the
/// extended grapheme clusters of a string depend on its characters alone.
#[verifier::external_body]
fn count_graphemes(s: &str) -> (n: usize)
    ensures
        n as nat == grapheme_count(s@),
{
    s.graphemes(true).count()
}

/// The characters that `str::trim` removes: the Unicode `White_Space` set.
pub open spec fn is_whitespace_char(c: char) -> bool {
    ||| c == ' '
    ||| c == '\t'
    ||| c == '\n'
    ||| c == '\u{000B}'
    ||| c == '\u{000C}'
    ||| c == '\r'
    ||| c == '\u{0085}'
    ||| c == '\u{00A0}'
    ||| c == '\u{1680}'
    ||| c == '\u{2000}'
    ||| c == '\u{2001}'
    ||| c == '\u{2002}'
    ||| c == '\u{2003}'
    ||| c == '\u{2004}'
    ||| c == '\u{2005}'
    ||| c == '\u{2006}'
    ||| c == '\u{2007}'
    ||| c == '\u{2008}'
    ||| c == '\u{2009}'
    ||| c == '\u{200A}'
    ||| c == '\u{2028}'
    ||| c == '\u{2029}'
    ||| c == '\u{202F}'
    ||| c == '\u{205F}'
    ||| c == '\u{3000}'
}

fn char_is_whitespace(c: char) -> (r: bool)
    ensures
        r == is_whitespace_char(c),
{
    c == ' ' || c == '\t' || c == '\n' || c == '\u{000B}' || c == '\u{000C}' || c == '\r'
        || c == '\u{0085}' || c == '\u{00A0}' || c == '\u{1680}' || c == '\u{2000}'
        || c == '\u{2001}' || c == '\u{2002}' || c == '\u{2003}' || c == '\u{2004}'
        || c == '\u{2005}' || c == '\u{2006}' || c == '\u{2007}' || c == '\u{2008}'
        || c == '\u{2009}' || c == '\u{200A}' || c == '\u{2028}' || c == '\u{2029}'
        || c == '\u{202F}' || c == '\u{205F}' || c == '\u{3000}'
}

/// Characters that a subscriber name may not contain.
pub open spec fn is_forbidden_char(c: char) -> bool {
    ||| c == '/'
    ||| c == '('
    ||| c == ')'
    ||| c == '"'
    ||| c == '\''
    ||| c == '<'
    ||| c == '>'
    ||| c == '\\'
    ||| c == '{'
    ||| c == '}'
    ||| c == '['
    ||| c == ']'
}

fn char_is_forbidden(c: char) -> (r: bool)
    ensures
        r == is_forbidden_char(c),
{
    c == '/' || c == '(' || c == ')' || c == '"' || c == '\'' || c == '<' || c == '>'
        || c == '\\' || c == '{' || c == '}' || c == '[' || c == ']'
}

/// A subscriber name is valid when it is not whitespace-only, is at most 256
/// grapheme clusters long, and contains no forbidden character.
pub open spec fn is_valid_subscriber_name(s: Seq<char>) -> bool {
    &&& exists|i: int| 0 <= i < s.len() && !is_whitespace_char(s[i])
    &&& grapheme_count(s) <= 256
    &&& forall|i: int| 0 <= i < s.len() ==> !is_forbidden_char(s[i])
}

/// A display name that passed validation at signup time.
#[derive(Debug)]
pub struct SubscriberName {
    name: String,
}

impl View for SubscriberName {
    type V = Seq<char>;

    closed spec fn view(&self) -> Seq<char> {
        self.name@
    }
}

impl SubscriberName {
    /// Accepts exactly the valid names and keeps the accepted string intact;
    /// a rejected input is reported back inside the error message.
    pub fn parse(s: String) -> (result: Result<SubscriberName, String>)
        ensures
            match result {
                Ok(name) => is_valid_subscriber_name(s@) && name@ == s@,
                Err(e) => !is_valid_subscriber_name(s@) && e@ == s@
                    + " is not a valid subscriber name"@,
            },
    {
        let len = s.as_str().unicode_len();
        let mut all_whitespace = true;
        let mut has_forbidden = false;
        let mut i: usize = 0;
        while i < len
            invariant
                len == s@.len(),
                0 <= i <= len,
                all_whitespace == forall|j: int| 0 <= j < i ==> is_whitespace_char(s@[j]),
                has_forbidden == exists|j: int| 0 <= j < i && is_forbidden_char(s@[j]),
            decreases len - i,
        {
            let c = s.as_str().get_char(i);
            if !char_is_whitespace(c) {
                all_whitespace = false;
            }
            if char_is_forbidden(c) {
                assert(is_forbidden_char(s@[i as int]));
                has_forbidden = true;
            }
            i += 1;
        }
        let too_long = count_graphemes(s.as_str()) > 256;
        if all_whitespace || too_long || has_forbidden {
            assert(!is_valid_subscriber_name(s@));
            let mut message = s;
            message.append(" is not a valid subscriber name");
            Err(message)
        } else {
            assert(is_valid_subscriber_name(s@));
            Ok(SubscriberName { name: s })
        }
    }

    /// Hands the validated string back out.
    pub fn inner(self) -> (r: String)
        ensures
            r@ == self@,
    {
        self.name
    }
}

} // verus!
