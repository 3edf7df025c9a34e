//! The text form of a token: the order id, a `#`, and the creation instant in
//! RFC 3339.
use crate::models::{Error, Order, Result, Token};
use crate::timestamp::{parse_rfc3339, rfc3339_instant, rfc3339_of, rfc3339_text, Timestamp};
use vstd::prelude::*;

verus! {

/// No character of `s` is the separator `#`.
pub open spec fn has_no_hash(s: Seq<char>) -> bool {
    forall|i: int| 0 <= i < s.len() ==> s[i] != '#'
}

/// `k` is the position of the first `#` in `s`.
pub open spec fn is_first_hash(s: Seq<char>, k: int) -> bool {
    &&& 0 <= k < s.len()
    &&& s[k] == '#'
    &&& has_no_hash(s.subrange(0, k))
}

/// The position of the first `#` in `s` (meaningful where there is one).
pub open spec fn first_hash(s: Seq<char>) -> int {
    choose|k: int| is_first_hash(s, k)
}

/// The text of the token for the key `(date, id)`.
pub open spec fn token_text(id: Seq<char>, date: Timestamp) -> Seq<char> {
    id + seq!['#'] + rfc3339_of(date.secs as int, date.nanos as int)
}

/// The text before and the text after the first `#`, if there is one.
pub open spec fn token_parts(s: Seq<char>) -> Option<(Seq<char>, Seq<char>)> {
    if has_no_hash(s) {
        None
    } else {
        Some((s.subrange(0, first_hash(s)), s.subrange(first_hash(s) + 1, s.len() as int)))
    }
}

/// The id and the instant that a token's text holds, or `None` where it is
/// not a token.
pub open spec fn decoded(s: Seq<char>) -> Option<(Seq<char>, (int, int))> {
    match token_parts(s) {
        None => None,
        Some(parts) => match rfc3339_instant(parts.1) {
            None => None,
            Some(instant) => Some((parts.0, instant)),
        },
    }
}

/// The message of the error for a text without `#`.
pub open spec fn invalid_token_message(s: Seq<char>) -> Seq<char> {
    INVALID_TOKEN_PREFIX@ + s
}

/// What precedes the text in the message of a token without `#`.
pub const INVALID_TOKEN_PREFIX: &'static str = "invalid token : ";

/// The first `#` is the only position that `is_first_hash` admits.
pub proof fn lemma_first_hash_unique(s: Seq<char>, k: int)
    requires
        is_first_hash(s, k),
    ensures
        first_hash(s) == k,
{
    let j = first_hash(s);
    assert(is_first_hash(s, j));
    if j < k {
        assert(s.subrange(0, k)[j] == s[j]);
    } else if k < j {
        assert(s.subrange(0, j)[k] == s[k]);
    }
}

impl Token {
    /// The token of an order: its id and creation instant.
    pub fn from_order(order: &Order) -> (r: Token)
        ensures
            r.id@ == order.id@,
            r.creation_date == order.creation_date,
    {
        Token { id: order.id.clone(), creation_date: order.creation_date }
    }

    /// The text of the token: id, `#`, and the creation instant in RFC 3339.
    /// Where the id holds no `#`, decoding the text gives the token back.
    pub fn encode(&self) -> (r: String)
        requires
            self.creation_date.encodable(),
        ensures
            r@ == token_text(self.id@, self.creation_date),
            has_no_hash(self.id@) ==> decoded(r@) == Some((self.id@, self.creation_date.pair())),
    {
        let date = rfc3339_text(self.creation_date);
        let mut text = self.id.clone();
        text.append("#");
        text.append(date.as_str());
        proof {
            reveal_strlit("#");
            let id = self.id@;
            let s = text@;
            assert(s =~= token_text(id, self.creation_date));
            if has_no_hash(id) {
                let k = id.len() as int;
                assert(s.subrange(0, k) =~= id);
                assert(s[k] == '#');
                assert(is_first_hash(s, k));
                lemma_first_hash_unique(s, k);
                assert(!has_no_hash(s));
                assert(s.subrange(k + 1, s.len() as int) =~= date@);
            }
        }
        text
    }

    /// Reads a token from its text: the id is what precedes the first `#`,
    /// the creation instant what follows it, in RFC 3339.
    pub fn decode(value: &str) -> (r: Result<Token>)
        ensures
            match r {
                Ok(t) => decoded(value@) == Some((t.id@, t.creation_date.pair())),
                Err(Error::Parse(m)) => has_no_hash(value@) && m@ == invalid_token_message(value@),
                Err(Error::ChonoParse(_)) => token_parts(value@) is Some && decoded(value@) is None,
                Err(_) => false,
            },
    {
        let n = value.unicode_len();
        let mut i: usize = 0;
        while i < n && value.get_char(i) != '#'
            invariant
                n == value@.len(),
                i <= n,
                has_no_hash(value@.subrange(0, i as int)),
            decreases n - i,
        {
            proof {
                let next = value@.subrange(0, i + 1);
                assert forall|j: int| 0 <= j < next.len() implies #[trigger] next[j] != '#' by {
                    if j < i {
                        assert(value@.subrange(0, i as int)[j] == value@[j]);
                    }
                }
            }
            i += 1;
        }
        if i == n {
            proof {
                assert(value@.subrange(0, i as int) =~= value@);
            }
            let mut message = String::from_str(INVALID_TOKEN_PREFIX);
            message.append(value);
            return Err(Error::Parse(message));
        }
        proof {
            assert(is_first_hash(value@, i as int));
            lemma_first_hash_unique(value@, i as int);
        }
        let id = String::from_str(value.substring_char(0, i));
        match parse_rfc3339(value.substring_char(i + 1, n)) {
            Ok(creation_date) => Ok(Token { id, creation_date }),
            Err(e) => Err(Error::ChonoParse(e)),
        }
    }
}

} // verus!
