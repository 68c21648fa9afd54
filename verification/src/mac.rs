use crate::error::ConfigError;
use crate::text::{digit_text, digit_value, hex_digit, hex_value, lemma_hex_digit_value};
use vstd::prelude::*;

verus! {

/// Number of characters in the colon-separated form, `aa:bb:cc:dd:ee:ff`.
pub const COLON_HEX_LEN: usize = 17;

/// Number of characters in the form without separators, `aabbccddeeff`.
pub const COMPACT_HEX_LEN: usize = 12;

/// The character with an upper-case hexadecimal letter folded to lower case.
pub open spec fn fold_hex_case(c: char) -> char {
    match hex_value(c) {
        Some(v) => hex_digit(v),
        None => c,
    }
}

/// Whether the text is exactly six pairs of hexadecimal digits with a colon
/// between neighbouring pairs.
pub open spec fn is_colon_hex(s: Seq<char>) -> bool {
    &&& s.len() == COLON_HEX_LEN
    &&& forall|i: int|
        0 <= i < s.len() ==> if i % 3 == 2 {
            #[trigger] s[i] == ':'
        } else {
            hex_value(s[i]) is Some
        }
}

/// The octet written by the pair of digits that starts at position `3 * k`.
pub open spec fn octet_at(s: Seq<char>, k: int) -> u8 {
    (16 * hex_value(s[3 * k])->0 + hex_value(s[3 * k + 1])->0) as u8
}

/// The six octets that a colon-separated text denotes.
pub open spec fn colon_hex_octets(s: Seq<char>) -> Seq<u8> {
    Seq::new(6, |k: int| octet_at(s, k))
}

/// The colon-separated lower-case text of six octets.
pub open spec fn colon_hex_text(octets: Seq<u8>) -> Seq<char> {
    Seq::new(
        COLON_HEX_LEN as nat,
        |i: int|
            if i % 3 == 0 {
                hex_digit(octets[i / 3] as int / 16)
            } else if i % 3 == 1 {
                hex_digit(octets[i / 3] as int % 16)
            } else {
                ':'
            },
    )
}

/// The lower-case text of six octets without separators.
pub open spec fn compact_hex_text(octets: Seq<u8>) -> Seq<char> {
    Seq::new(
        COMPACT_HEX_LEN as nat,
        |i: int|
            if i % 2 == 0 {
                hex_digit(octets[i / 2] as int / 16)
            } else {
                hex_digit(octets[i / 2] as int % 16)
            },
    )
}

/// An Ethernet hardware address: six octets, compared octet by octet.
#[derive(Clone, Copy, Debug, PartialEq, Eq)]
pub struct MacAddress {
    octets: [u8; 6],
}

impl View for MacAddress {
    type V = Seq<u8>;

    closed spec fn view(&self) -> Seq<u8> {
        self.octets@
    }
}

/// Reading a well-formed text and writing the address again gives the text
/// back in its canonical form: the same digits, letters in lower case.
pub proof fn lemma_parse_then_format(s: Seq<char>)
    requires
        is_colon_hex(s),
    ensures
        colon_hex_text(colon_hex_octets(s)) == s.map_values(|c: char| fold_hex_case(c)),
        is_colon_hex(colon_hex_text(colon_hex_octets(s))),
{
    let octets = colon_hex_octets(s);
    let written = colon_hex_text(octets);
    let folded = s.map_values(|c: char| fold_hex_case(c));
    assert forall|i: int| 0 <= i < written.len() implies written[i] == folded[i] && (if i % 3
        == 2 {
        written[i] == ':'
    } else {
        hex_value(written[i]) is Some
    }) by {
        let k = i / 3;
        let high = hex_value(s[3 * k])->0;
        let low = hex_value(s[3 * k + 1])->0;
        assert(hex_value(s[3 * k]) is Some && hex_value(s[3 * k + 1]) is Some) by {
            assert((3 * k) % 3 == 0 && (3 * k + 1) % 3 == 1);
        }
        assert(octets[k] as int == 16 * high + low);
        assert(octets[k] as int / 16 == high && octets[k] as int % 16 == low);
        lemma_hex_digit_value(high);
        lemma_hex_digit_value(low);
        if i % 3 == 2 {
            assert(s[i] == ':');
        }
    }
    assert(written =~= folded);
}

/// Writing an address and reading the text again gives the same octets.
pub proof fn lemma_format_then_parse(octets: Seq<u8>)
    requires
        octets.len() == 6,
    ensures
        is_colon_hex(colon_hex_text(octets)),
        colon_hex_octets(colon_hex_text(octets)) == octets,
{
    let written = colon_hex_text(octets);
    assert forall|i: int| 0 <= i < written.len() implies (if i % 3 == 2 {
        #[trigger] written[i] == ':'
    } else {
        hex_value(written[i]) is Some
    }) by {
        let k = i / 3;
        lemma_hex_digit_value(octets[k] as int / 16);
        lemma_hex_digit_value(octets[k] as int % 16);
    }
    assert forall|k: int| 0 <= k < 6 implies octet_at(written, k) == octets[k] by {
        lemma_hex_digit_value(octets[k] as int / 16);
        lemma_hex_digit_value(octets[k] as int % 16);
        assert((3 * k) % 3 == 0 && (3 * k) / 3 == k);
        assert((3 * k + 1) % 3 == 1 && (3 * k + 1) / 3 == k);
    }
    assert(colon_hex_octets(written) =~= octets);
}

impl MacAddress {
    /// The address with the given octets, first octet first.
    pub fn from_octets(octets: [u8; 6]) -> (r: MacAddress)
        ensures
            r@ == octets@,
    {
        MacAddress { octets }
    }

    /// The six octets, first octet first.
    pub fn octets(&self) -> (r: [u8; 6])
        ensures
            r@ == self@,
    {
        self.octets
    }

    /// Every address has six octets.
    pub proof fn lemma_six_octets(self)
        ensures
            self@.len() == 6,
    {
    }

    /// Reads an address written as six colon-separated pairs of hexadecimal
    /// digits of either case. Any other text is malformed: nothing is
    /// skipped, padded or guessed.
    pub fn parse(text: &str) -> (r: Result<MacAddress, ConfigError>)
        ensures
            is_colon_hex(text@) ==> r is Ok && r->Ok_0@ == colon_hex_octets(text@),
            !is_colon_hex(text@) ==> r == Err::<MacAddress, ConfigError>(
                ConfigError::MalformedMacAddress,
            ),
    {
        if text.unicode_len() != COLON_HEX_LEN {
            return Err(ConfigError::MalformedMacAddress);
        }
        let mut octets: [u8; 6] = [0u8; 6];
        let mut k: usize = 0;
        while k < 6
            invariant
                k <= 6,
                text@.len() == COLON_HEX_LEN,
                forall|i: int|
                    0 <= i < 3 * k && i < text@.len() ==> if i % 3 == 2 {
                        #[trigger] text@[i] == ':'
                    } else {
                        hex_value(text@[i]) is Some
                    },
                forall|j: int| 0 <= j < k ==> #[trigger] octets@[j] == octet_at(text@, j),
            decreases 6 - k,
        {
            let high = digit_value(text.get_char(3 * k));
            let low = digit_value(text.get_char(3 * k + 1));
            match (high, low) {
                (Some(h), Some(l)) => {
                    if k < 5 && text.get_char(3 * k + 2) != ':' {
                        assert(!is_colon_hex(text@)) by {
                            let bad = 3 * k + 2;
                            assert(bad % 3 == 2);
                            assert(text@[bad] != ':');
                        }
                        return Err(ConfigError::MalformedMacAddress);
                    }
                    octets[k] = h * 16 + l;
                },
                _ => {
                    assert(!is_colon_hex(text@)) by {
                        let a = 3 * k;
                        let b = 3 * k + 1;
                        assert(a % 3 == 0 && b % 3 == 1);
                        assert(hex_value(text@[a]) is None || hex_value(text@[b]) is None);
                    }
                    return Err(ConfigError::MalformedMacAddress);
                },
            }
            k = k + 1;
        }
        assert(octets@ =~= colon_hex_octets(text@));
        Ok(MacAddress { octets })
    }

    /// The address as six lower-case two-digit pairs with colons between
    /// them.
    pub fn format_colon_hex(&self) -> (r: String)
        ensures
            r@ == colon_hex_text(self@),
    {
        let mut out = String::new();
        let mut k: usize = 0;
        while k < 6
            invariant
                k <= 6,
                self.octets@.len() == 6,
                out@.len() == if k == 0 {
                    0int
                } else {
                    3 * k - 1
                },
                forall|i: int| 0 <= i < out@.len() ==> out@[i] == colon_hex_text(self@)[i],
            decreases 6 - k,
        {
            if k > 0 {
                proof {
                    reveal_strlit(":");
                }
                out.append(":");
            }
            let octet = self.octets[k];
            out.append(digit_text(octet / 16));
            out.append(digit_text(octet % 16));
            k = k + 1;
        }
        assert(out@ =~= colon_hex_text(self@));
        out
    }

    /// The address as twelve lower-case hexadecimal digits, for use in file
    /// names.
    pub fn format_compact_hex(&self) -> (r: String)
        ensures
            r@ == compact_hex_text(self@),
    {
        let mut out = String::new();
        let mut k: usize = 0;
        while k < 6
            invariant
                k <= 6,
                self.octets@.len() == 6,
                out@.len() == 2 * k,
                forall|i: int| 0 <= i < out@.len() ==> out@[i] == compact_hex_text(self@)[i],
            decreases 6 - k,
        {
            let octet = self.octets[k];
            out.append(digit_text(octet / 16));
            out.append(digit_text(octet % 16));
            k = k + 1;
        }
        assert(out@ =~= compact_hex_text(self@));
        out
    }
}

} // verus!
