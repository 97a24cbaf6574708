//! The canonical text form of an identifier.
//!
//! A 16-byte payload is rendered as 36 characters: five groups of lowercase
//! hexadecimal digits of lengths 8, 4, 4, 4 and 12, separated by hyphens at
//! positions 8, 13, 18 and 23. Parsing accepts the same shape with digits of
//! either case and restores the payload exactly; everything else is rejected.

use vstd::prelude::*;
use vstd::string::StrSliceExecFns;

verus! {

/// True at the positions of the four hyphens of the canonical form.
pub open spec fn is_hyphen_pos(i: int) -> bool {
    i == 8 || i == 13 || i == 18 || i == 23
}

/// How many hyphens stand before position `i` of the canonical form.
pub open spec fn hyphens_before(i: int) -> int {
    if i <= 8 {
        0
    } else if i <= 13 {
        1
    } else if i <= 18 {
        2
    } else if i <= 23 {
        3
    } else {
        4
    }
}

/// The position, in the canonical form, of the high-nibble digit of payload
/// byte `j`; the low-nibble digit follows at the next position.
pub open spec fn hi_pos(j: int) -> int {
    if j < 4 {
        2 * j
    } else if j < 6 {
        2 * j + 1
    } else if j < 8 {
        2 * j + 2
    } else if j < 10 {
        2 * j + 3
    } else {
        2 * j + 4
    }
}

/// The lowercase hexadecimal digit for a nibble value.
pub open spec fn hex_char(n: u8) -> char {
    if n == 0 {
        '0'
    } else if n == 1 {
        '1'
    } else if n == 2 {
        '2'
    } else if n == 3 {
        '3'
    } else if n == 4 {
        '4'
    } else if n == 5 {
        '5'
    } else if n == 6 {
        '6'
    } else if n == 7 {
        '7'
    } else if n == 8 {
        '8'
    } else if n == 9 {
        '9'
    } else if n == 10 {
        'a'
    } else if n == 11 {
        'b'
    } else if n == 12 {
        'c'
    } else if n == 13 {
        'd'
    } else if n == 14 {
        'e'
    } else {
        'f'
    }
}

/// The value of a hexadecimal digit of either case, or -1 for any other
/// character.
pub open spec fn hex_val(c: char) -> int {
    if c == '0' {
        0
    } else if c == '1' {
        1
    } else if c == '2' {
        2
    } else if c == '3' {
        3
    } else if c == '4' {
        4
    } else if c == '5' {
        5
    } else if c == '6' {
        6
    } else if c == '7' {
        7
    } else if c == '8' {
        8
    } else if c == '9' {
        9
    } else if c == 'a' || c == 'A' {
        10
    } else if c == 'b' || c == 'B' {
        11
    } else if c == 'c' || c == 'C' {
        12
    } else if c == 'd' || c == 'D' {
        13
    } else if c == 'e' || c == 'E' {
        14
    } else if c == 'f' || c == 'F' {
        15
    } else {
        -1
    }
}

/// True for characters accepted as hexadecimal digits (either case).
pub open spec fn is_hex_digit(c: char) -> bool {
    hex_val(c) >= 0
}

/// True for the digits the canonical form itself uses: lowercase only.
pub open spec fn is_lower_hex_digit(c: char) -> bool {
    is_hex_digit(c) && !(c == 'A' || c == 'B' || c == 'C' || c == 'D' || c == 'E' || c == 'F')
}

/// The character at position `i` of the canonical form of payload `b`.
pub open spec fn canonical_char(b: Seq<u8>, i: int) -> char
    recommends
        b.len() == 16,
        0 <= i < 36,
{
    if is_hyphen_pos(i) {
        '-'
    } else {
        let n = i - hyphens_before(i);
        if n % 2 == 0 {
            hex_char((b[n / 2] / 16) as u8)
        } else {
            hex_char((b[n / 2] % 16) as u8)
        }
    }
}

/// The canonical text form of a 16-byte payload: 36 characters, lowercase,
/// hyphenated 8-4-4-4-12.
pub open spec fn canonical_of(b: Seq<u8>) -> Seq<char>
    recommends
        b.len() == 16,
{
    Seq::new(36, |i: int| canonical_char(b, i))
}

/// True when `s` follows the accepted textual grammar: exactly 36 characters,
/// hyphens at positions 8, 13, 18 and 23, and hexadecimal digits of either
/// case everywhere else.
pub open spec fn is_canonical(s: Seq<char>) -> bool {
    &&& s.len() == 36
    &&& forall|i: int| 0 <= i < 36 && is_hyphen_pos(i) ==> (#[trigger] s[i]) == '-'
    &&& forall|i: int| 0 <= i < 36 && !is_hyphen_pos(i) ==> is_hex_digit(#[trigger] s[i])
}

/// The payload encoded by a string of the accepted grammar: byte `j` is read
/// from the two hexadecimal digits at positions `hi_pos(j)` and
/// `hi_pos(j) + 1`.
pub open spec fn parsed_bytes(s: Seq<char>) -> Seq<u8>
    recommends
        is_canonical(s),
{
    Seq::new(16, |j: int| (16 * hex_val(s[hi_pos(j)]) + hex_val(s[hi_pos(j) + 1])) as u8)
}

/// A hexadecimal digit never values 16 or more.
pub proof fn lemma_hex_val_bounds(c: char)
    ensures
        -1 <= hex_val(c) < 16,
{
}

/// Each nibble value renders as a lowercase digit that reads back as itself.
pub proof fn lemma_hex_char_reads_back(n: u8)
    requires
        n < 16,
    ensures
        hex_val(hex_char(n)) == n as int,
        is_lower_hex_digit(hex_char(n)),
{
}

/// Each lowercase hexadecimal digit is the rendering of its own value.
pub proof fn lemma_lower_hex_digit_renders_back(c: char)
    requires
        is_lower_hex_digit(c),
    ensures
        hex_char(hex_val(c) as u8) == c,
{
}

/// Relies on `String::push`: appends exactly the given character.
pub assume_specification[ String::push ](s: &mut String, c: char)
    ensures
        final(s)@ == old(s)@.push(c),
;

/// The lowercase hexadecimal digit for a nibble value.
pub fn hex_char_exec(n: u8) -> (c: char)
    requires
        n < 16,
    ensures
        c == hex_char(n),
{
    if n == 0 {
        '0'
    } else if n == 1 {
        '1'
    } else if n == 2 {
        '2'
    } else if n == 3 {
        '3'
    } else if n == 4 {
        '4'
    } else if n == 5 {
        '5'
    } else if n == 6 {
        '6'
    } else if n == 7 {
        '7'
    } else if n == 8 {
        '8'
    } else if n == 9 {
        '9'
    } else if n == 10 {
        'a'
    } else if n == 11 {
        'b'
    } else if n == 12 {
        'c'
    } else if n == 13 {
        'd'
    } else if n == 14 {
        'e'
    } else {
        'f'
    }
}

/// The value of a hexadecimal digit of either case, or `None` for any other
/// character.
pub fn hex_val_exec(c: char) -> (r: Option<u8>)
    ensures
        match r {
            Some(v) => v < 16 && hex_val(c) == v as int,
            None => hex_val(c) == -1,
        },
{
    if c == '0' {
        Some(0)
    } else if c == '1' {
        Some(1)
    } else if c == '2' {
        Some(2)
    } else if c == '3' {
        Some(3)
    } else if c == '4' {
        Some(4)
    } else if c == '5' {
        Some(5)
    } else if c == '6' {
        Some(6)
    } else if c == '7' {
        Some(7)
    } else if c == '8' {
        Some(8)
    } else if c == '9' {
        Some(9)
    } else if c == 'a' || c == 'A' {
        Some(10)
    } else if c == 'b' || c == 'B' {
        Some(11)
    } else if c == 'c' || c == 'C' {
        Some(12)
    } else if c == 'd' || c == 'D' {
        Some(13)
    } else if c == 'e' || c == 'E' {
        Some(14)
    } else if c == 'f' || c == 'F' {
        Some(15)
    } else {
        None
    }
}

/// Where the content of an iteration of the renderer starts: the group
/// hyphen, if byte `j` opens a group, comes before its high-nibble digit.
spec fn render_start_pos(j: int) -> int {
    hi_pos(j) - if j == 4 || j == 6 || j == 8 || j == 10 {
        1int
    } else {
        0int
    }
}

/// Renders a 16-byte payload in the canonical text form.
pub fn bytes_to_canonical(b: &[u8; 16]) -> (s: String)
    ensures
        s@ == canonical_of(b@),
{
    let mut s = String::new();
    let mut j: usize = 0;
    proof {
        assert(s@ =~= canonical_of(b@).take(0));
    }
    while j < 16
        invariant
            0 <= j <= 16,
            s@ == canonical_of(b@).take(render_start_pos(j as int)),
        decreases 16 - j,
    {
        let ghost jj = j as int;
        if j == 4 || j == 6 || j == 8 || j == 10 {
            s.push('-');
            proof {
                assert(is_hyphen_pos(hi_pos(jj) - 1));
                assert(canonical_of(b@)[hi_pos(jj) - 1] == '-');
                assert(s@ =~= canonical_of(b@).take(hi_pos(jj)));
            }
        }
        let byte = b[j];
        assert(byte / 16 < 16 && byte % 16 < 16);
        s.push(hex_char_exec(byte / 16));
        proof {
            assert(!is_hyphen_pos(hi_pos(jj)));
            assert(hi_pos(jj) - hyphens_before(hi_pos(jj)) == 2 * jj);
            assert(canonical_of(b@)[hi_pos(jj)] == hex_char((b@[jj] / 16) as u8));
            assert(s@ =~= canonical_of(b@).take(hi_pos(jj) + 1));
        }
        s.push(hex_char_exec(byte % 16));
        proof {
            assert(!is_hyphen_pos(hi_pos(jj) + 1));
            assert(hi_pos(jj) + 1 - hyphens_before(hi_pos(jj) + 1) == 2 * jj + 1);
            assert(canonical_of(b@)[hi_pos(jj) + 1] == hex_char((b@[jj] % 16) as u8));
            assert(s@ =~= canonical_of(b@).take(hi_pos(jj) + 2));
            assert(hi_pos(jj) + 2 == render_start_pos(jj + 1));
        }
        j += 1;
    }
    proof {
        assert(s@ =~= canonical_of(b@));
    }
    s
}

/// Parses the canonical text form; returns the payload bytes, or `None` when
/// the input does not follow the grammar.
pub fn canonical_to_bytes(s: &str) -> (r: Option<[u8; 16]>)
    ensures
        match r {
            Some(b) => is_canonical(s@) && b@ == parsed_bytes(s@),
            None => !is_canonical(s@),
        },
{
    if s.unicode_len() != 36 {
        return None;
    }
    if s.get_char(8) != '-' || s.get_char(13) != '-' || s.get_char(18) != '-' || s.get_char(23)
        != '-' {
        return None;
    }
    let mut b: [u8; 16] = [0; 16];
    let mut j: usize = 0;
    while j < 16
        invariant
            0 <= j <= 16,
            s@.len() == 36,
            forall|k: int|
                0 <= k < j ==> is_hex_digit(s@[#[trigger] hi_pos(k)]) && is_hex_digit(
                    s@[hi_pos(k) + 1],
                ),
            forall|k: int|
                0 <= k < j ==> (#[trigger] b@[k]) as int == 16 * hex_val(s@[hi_pos(k)]) + hex_val(
                    s@[hi_pos(k) + 1],
                ),
        decreases 16 - j,
    {
        let ghost jj = j as int;
        let p: usize = if j < 4 {
            2 * j
        } else if j < 6 {
            2 * j + 1
        } else if j < 8 {
            2 * j + 2
        } else if j < 10 {
            2 * j + 3
        } else {
            2 * j + 4
        };
        assert(p as int == hi_pos(jj));
        assert(!is_hyphen_pos(hi_pos(jj)) && !is_hyphen_pos(hi_pos(jj) + 1));
        let hi = match hex_val_exec(s.get_char(p)) {
            Some(v) => v,
            None => {
                proof {
                    assert(!is_hex_digit(s@[hi_pos(jj)]));
                }
                return None;
            },
        };
        let lo = match hex_val_exec(s.get_char(p + 1)) {
            Some(v) => v,
            None => {
                proof {
                    assert(!is_hex_digit(s@[hi_pos(jj) + 1]));
                }
                return None;
            },
        };
        b[j] = hi * 16 + lo;
        j += 1;
    }
    proof {
        assert forall|i: int| 0 <= i < 36 && !is_hyphen_pos(i) implies is_hex_digit(s@[i]) by {
            let n = i - hyphens_before(i);
            let k = n / 2;
            assert(0 <= k < 16);
            if n % 2 == 0 {
                assert(hi_pos(k) == i);
            } else {
                assert(hi_pos(k) + 1 == i);
            }
        }
        assert(is_canonical(s@));
        assert forall|k: int| 0 <= k < 16 implies b@[k] == parsed_bytes(s@)[k] by {
            assert(0 <= 16 * hex_val(s@[hi_pos(k)]) + hex_val(s@[hi_pos(k) + 1]) < 256);
        }
        assert(b@ =~= parsed_bytes(s@));
    }
    Some(b)
}

/// Rendering a payload always yields a string of the accepted grammar, and
/// parsing that string restores the payload exactly.
pub proof fn lemma_canonical_round_trip(b: Seq<u8>)
    requires
        b.len() == 16,
    ensures
        is_canonical(canonical_of(b)),
        parsed_bytes(canonical_of(b)) == b,
{
    let s = canonical_of(b);
    assert forall|i: int| 0 <= i < 36 && !is_hyphen_pos(i) implies is_hex_digit(s[i]) by {
        let n = i - hyphens_before(i);
        assert(0 <= n / 2 < 16);
        lemma_hex_char_reads_back((b[n / 2] / 16) as u8);
        lemma_hex_char_reads_back((b[n / 2] % 16) as u8);
    }
    assert(is_canonical(s));
    assert forall|j: int| 0 <= j < 16 implies parsed_bytes(s)[j] == b[j] by {
        assert(!is_hyphen_pos(hi_pos(j)) && !is_hyphen_pos(hi_pos(j) + 1));
        assert(hi_pos(j) - hyphens_before(hi_pos(j)) == 2 * j);
        assert(hi_pos(j) + 1 - hyphens_before(hi_pos(j) + 1) == 2 * j + 1);
        assert(s[hi_pos(j)] == hex_char((b[j] / 16) as u8));
        assert(s[hi_pos(j) + 1] == hex_char((b[j] % 16) as u8));
        lemma_hex_char_reads_back((b[j] / 16) as u8);
        lemma_hex_char_reads_back((b[j] % 16) as u8);
    }
    assert(parsed_bytes(s) =~= b);
}

/// Parsing a string of the accepted grammar whose digits are lowercase and
/// re-rendering the payload restores the string exactly. (An uppercase digit
/// parses too, but re-renders as its lowercase form.)
pub proof fn lemma_parse_render_round_trip(s: Seq<char>)
    requires
        is_canonical(s),
        forall|i: int| 0 <= i < 36 && !is_hyphen_pos(i) ==> is_lower_hex_digit(#[trigger] s[i]),
    ensures
        canonical_of(parsed_bytes(s)) == s,
{
    let b = parsed_bytes(s);
    assert forall|i: int| 0 <= i < 36 implies canonical_of(b)[i] == s[i] by {
        if !is_hyphen_pos(i) {
            let n = i - hyphens_before(i);
            let j = n / 2;
            assert(0 <= j < 16);
            assert(!is_hyphen_pos(hi_pos(j)) && !is_hyphen_pos(hi_pos(j) + 1));
            let chi = s[hi_pos(j)];
            let clo = s[hi_pos(j) + 1];
            lemma_hex_val_bounds(chi);
            lemma_hex_val_bounds(clo);
            lemma_lower_hex_digit_renders_back(chi);
            lemma_lower_hex_digit_renders_back(clo);
            assert(0 <= 16 * hex_val(chi) + hex_val(clo) < 256);
            assert(b[j] as int == 16 * hex_val(chi) + hex_val(clo));
            assert(b[j] / 16 == hex_val(chi) && b[j] % 16 == hex_val(clo));
            if n % 2 == 0 {
                assert(hi_pos(j) == i);
                assert(canonical_of(b)[i] == hex_char((b[j] / 16) as u8));
            } else {
                assert(hi_pos(j) + 1 == i);
                assert(canonical_of(b)[i] == hex_char((b[j] % 16) as u8));
            }
        }
    }
    assert(canonical_of(b) =~= s);
}

} // verus!
