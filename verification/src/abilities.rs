//! The six-score ability block of a combatant, parsed from a `/`-separated
//! list and described line by line.

use crate::text::{append_u64, parse_u32, spec_parse_u32, spec_split_slash, spec_u64_digits, split_slash};
use vstd::prelude::*;

verus! {

/// Why an ability block failed to parse: a field that is not an integer of
/// the expected range, or a count of fields other than six.
#[derive(Debug, Clone, Copy, PartialEq, Eq, Structural)]
pub enum ParseAbilitiesError {
    Int,
    NumArgs,
}

/// The six ability scores.
#[derive(Debug, Clone, Copy, PartialEq, Eq, Structural)]
pub struct Abilities {
    pub strength: u32,
    pub intelligence: u32,
    pub wisdom: u32,
    pub dexterity: u32,
    pub constitution: u32,
    pub charisma: u32,
}

/// The ability block a `/`-separated list denotes, or the error it raises: a
/// field that is no integer beats a wrong field count.
pub open spec fn spec_parse_abilities(s: Seq<char>) -> Result<Abilities, ParseAbilitiesError> {
    let segs = spec_split_slash(s);
    if forall|q: int| 0 <= q < segs.len() ==> spec_parse_u32(#[trigger] segs[q]) is Some {
        if segs.len() == 6 {
            Ok(
                Abilities {
                    strength: spec_parse_u32(segs[0]).unwrap() as u32,
                    intelligence: spec_parse_u32(segs[1]).unwrap() as u32,
                    wisdom: spec_parse_u32(segs[2]).unwrap() as u32,
                    dexterity: spec_parse_u32(segs[3]).unwrap() as u32,
                    constitution: spec_parse_u32(segs[4]).unwrap() as u32,
                    charisma: spec_parse_u32(segs[5]).unwrap() as u32,
                },
            )
        } else {
            Err(ParseAbilitiesError::NumArgs)
        }
    } else {
        Err(ParseAbilitiesError::Int)
    }
}

/// The description of an ability block, one score per line.
pub open spec fn spec_abilities_text(a: Abilities) -> Seq<char> {
    "STR: "@ + spec_u64_digits(a.strength as int) + "\n\rINT: "@ + spec_u64_digits(
        a.intelligence as int,
    ) + "\n\rWIS: "@ + spec_u64_digits(a.wisdom as int) + "\n\rDEX: "@ + spec_u64_digits(
        a.dexterity as int,
    ) + "\n\rCON: "@ + spec_u64_digits(a.constitution as int) + "\n\rCHA: "@ + spec_u64_digits(
        a.charisma as int,
    )
}

impl Abilities {
    /// Parse six `/`-separated ability scores in the fixed order strength,
    /// intelligence, wisdom, dexterity, constitution, charisma.
    #[verifier::loop_isolation(false)]
    pub fn from_str(s: &str) -> (r: Result<Abilities, ParseAbilitiesError>)
        ensures
            r == spec_parse_abilities(s@),
    {
        let segs = split_slash(s);
        let n = segs.len();
        let mut vals: Vec<u32> = Vec::new();
        let mut i: usize = 0;
        while i < n
            invariant
                0 <= i <= n,
                n == segs.len(),
                segs.deep_view() == spec_split_slash(s@),
                vals.len() == i,
                forall|q: int|
                    0 <= q < i ==> spec_parse_u32(segs.deep_view()[q]) == Some(
                        #[trigger] vals@[q] as int,
                    ),
            decreases n - i,
        {
            match parse_u32(segs[i].as_str()) {
                Some(v) => {
                    vals.push(v);
                },
                None => {
                    proof {
                        let view_segs = spec_split_slash(s@);
                        assert(spec_parse_u32(view_segs[i as int]) is None);
                        assert(!(forall|q: int|
                            0 <= q < view_segs.len() ==> spec_parse_u32(
                                #[trigger] view_segs[q],
                            ) is Some));
                    }
                    return Err(ParseAbilitiesError::Int);
                },
            }
            i = i + 1;
        }
        proof {
            let view_segs = spec_split_slash(s@);
            assert forall|q: int| 0 <= q < view_segs.len() implies spec_parse_u32(
                #[trigger] view_segs[q],
            ) is Some by {
                assert(spec_parse_u32(segs.deep_view()[q]) == Some(vals@[q] as int));
            }
        }
        if vals.len() == 6 {
            Ok(
                Abilities {
                    strength: vals[0],
                    intelligence: vals[1],
                    wisdom: vals[2],
                    dexterity: vals[3],
                    constitution: vals[4],
                    charisma: vals[5],
                },
            )
        } else {
            Err(ParseAbilitiesError::NumArgs)
        }
    }

    /// Describe the block, one score per line.
    pub fn to_text(&self) -> (r: String)
        ensures
            r@ == spec_abilities_text(*self),
    {
        let mut out = String::new();
        out.append("STR: ");
        append_u64(&mut out, self.strength as u64);
        out.append("\n\rINT: ");
        append_u64(&mut out, self.intelligence as u64);
        out.append("\n\rWIS: ");
        append_u64(&mut out, self.wisdom as u64);
        out.append("\n\rDEX: ");
        append_u64(&mut out, self.dexterity as u64);
        out.append("\n\rCON: ");
        append_u64(&mut out, self.constitution as u64);
        out.append("\n\rCHA: ");
        append_u64(&mut out, self.charisma as u64);
        proof {
            assert(out@ =~= spec_abilities_text(*self));
        }
        out
    }
}

} // verus!
