//! The kind of entity behind a fiscal identifier.

use vstd::prelude::*;

use crate::error::Error;

verus! {

/// The kind of entity a fiscal identifier belongs to.
///
/// Each kind maps bidirectionally to one single-letter code, matched
/// case-insensitively on input and rendered uppercase on output:
///
/// - `C`: township or communal council
/// - `E`: foreign natural person
/// - `G`: government entity
/// - `J`: legal entity
/// - `P`: passport holder
/// - `V`: Venezuelan citizen
#[derive(Clone, Copy, Debug, PartialEq, Eq, Structural)]
pub enum Kind {
    /// E: foreigner
    Foreigner,
    /// G: government entity
    Government,
    /// J: legal entity
    Legal,
    /// P: passport
    Passport,
    /// C: township or communal council
    Township,
    /// V: Venezuelan
    Venezuelan,
}

/// The weight a kind contributes to the checksum: it stands in for the
/// leftmost of the nine digit slots, multiplied by four.
pub open spec fn kind_weight(k: Kind) -> int {
    match k {
        Kind::Venezuelan => 1,
        Kind::Foreigner => 2,
        Kind::Legal => 3,
        Kind::Township => 3,
        Kind::Passport => 4,
        Kind::Government => 5,
    }
}

/// The canonical uppercase one-letter code of a kind.
pub open spec fn kind_code(k: Kind) -> Seq<char> {
    match k {
        Kind::Foreigner => seq!['E'],
        Kind::Government => seq!['G'],
        Kind::Legal => seq!['J'],
        Kind::Passport => seq!['P'],
        Kind::Township => seq!['C'],
        Kind::Venezuelan => seq!['V'],
    }
}

/// The kind a code string denotes: exactly one letter, either case.
/// `None` for every other string.
pub open spec fn code_to_kind(s: Seq<char>) -> Option<Kind> {
    if s.len() != 1 {
        None
    } else if s[0] == 'c' || s[0] == 'C' {
        Some(Kind::Township)
    } else if s[0] == 'e' || s[0] == 'E' {
        Some(Kind::Foreigner)
    } else if s[0] == 'g' || s[0] == 'G' {
        Some(Kind::Government)
    } else if s[0] == 'j' || s[0] == 'J' {
        Some(Kind::Legal)
    } else if s[0] == 'p' || s[0] == 'P' {
        Some(Kind::Passport)
    } else if s[0] == 'v' || s[0] == 'V' {
        Some(Kind::Venezuelan)
    } else {
        None
    }
}

impl Kind {
    /// The weight of this kind in the checksum formula.
    pub fn checksum_digit(&self) -> (w: u32)
        ensures
            w as int == kind_weight(*self),
    {
        match self {
            Kind::Venezuelan => 1,
            Kind::Foreigner => 2,
            Kind::Legal | Kind::Township => 3,
            Kind::Passport => 4,
            Kind::Government => 5,
        }
    }

    /// Looks a kind up from its one-letter code, case-insensitively.
    /// Any other string is rejected and handed back inside the error.
    pub fn parse(code: &str) -> (r: Result<Kind, Error>)
        ensures
            match r {
                Ok(k) => code_to_kind(code@) == Some(k),
                Err(e) => code_to_kind(code@) is None && (e matches Error::InvalidRifKind(m)
                    && m@ == code@),
            },
    {
        if code.unicode_len() == 1 {
            let c = code.get_char(0);
            let found: Option<Kind> = match c {
                'c' | 'C' => Some(Kind::Township),
                'e' | 'E' => Some(Kind::Foreigner),
                'g' | 'G' => Some(Kind::Government),
                'j' | 'J' => Some(Kind::Legal),
                'p' | 'P' => Some(Kind::Passport),
                'v' | 'V' => Some(Kind::Venezuelan),
                _ => None,
            };
            if let Some(k) = found {
                return Ok(k);
            }
        }
        Err(Error::InvalidRifKind(code.to_owned()))
    }

    /// The canonical uppercase one-letter code of this kind.
    pub fn to_code(&self) -> (r: String)
        ensures
            r@ == kind_code(*self),
    {
        let r = match self {
            Kind::Foreigner => String::from_str("E"),
            Kind::Government => String::from_str("G"),
            Kind::Legal => String::from_str("J"),
            Kind::Passport => String::from_str("P"),
            Kind::Township => String::from_str("C"),
            Kind::Venezuelan => String::from_str("V"),
        };
        proof {
            reveal_strlit("E");
            reveal_strlit("G");
            reveal_strlit("J");
            reveal_strlit("P");
            reveal_strlit("C");
            reveal_strlit("V");
            assert(r@ =~= kind_code(*self));
        }
        r
    }
}

impl core::str::FromStr for Kind {
    type Err = Error;

    fn from_str(s: &str) -> Result<Kind, Error> {
        Kind::parse(s)
    }
}

/// Law: every kind's canonical code is a single uppercase letter and parses
/// back to the same kind.
pub proof fn lemma_kind_code_round_trip(k: Kind)
    ensures
        kind_code(k).len() == 1,
        'A' <= kind_code(k)[0] && kind_code(k)[0] <= 'Z',
        code_to_kind(kind_code(k)) == Some(k),
{
}

/// Law: parsing is case-insensitive on the way in and uppercase on the way
/// out — re-parsing the canonical code of any parsed kind yields that kind
/// again.
pub proof fn lemma_code_normalization(s: Seq<char>)
    requires
        code_to_kind(s) is Some,
    ensures
        code_to_kind(kind_code(code_to_kind(s)->Some_0)) == code_to_kind(s),
{
    lemma_kind_code_round_trip(code_to_kind(s)->Some_0);
}

} // verus!
