//! Hardware addresses: parsing from the delimited hexadecimal text form,
//! and serialization back to the canonical upper-case form.

use vstd::prelude::*;
use vstd::string::StrSliceExecFns;
use vstd::string::StringExecFns;
use crate::error::WakeError;
use crate::text::split_on;
use crate::text::lemma_split_on_no_delim;
use crate::text::lemma_split_on_concat;

verus! {

/// A hexadecimal digit, either case.
pub open spec fn is_hex_digit(c: char) -> bool {
    ||| c == '0'
    ||| c == '1'
    ||| c == '2'
    ||| c == '3'
    ||| c == '4'
    ||| c == '5'
    ||| c == '6'
    ||| c == '7'
    ||| c == '8'
    ||| c == '9'
    ||| c == 'a'
    ||| c == 'b'
    ||| c == 'c'
    ||| c == 'd'
    ||| c == 'e'
    ||| c == 'f'
    ||| c == 'A'
    ||| c == 'B'
    ||| c == 'C'
    ||| c == 'D'
    ||| c == 'E'
    ||| c == 'F'
}

/// The value of one hexadecimal digit.
pub open spec fn hex_digit_val(c: char) -> nat {
    if c == '0' {
        0
    } else if c == '1' {
        1
    } else if c == '2' {
        2
    } else if c == '3' {
        3
    } else if c == '4' {
        4
    } else if c == '5' {
        5
    } else if c == '6' {
        6
    } else if c == '7' {
        7
    } else if c == '8' {
        8
    } else if c == '9' {
        9
    } else if c == 'a' || c == 'A' {
        10
    } else if c == 'b' || c == 'B' {
        11
    } else if c == 'c' || c == 'C' {
        12
    } else if c == 'd' || c == 'D' {
        13
    } else if c == 'e' || c == 'E' {
        14
    } else if c == 'f' || c == 'F' {
        15
    } else {
        0
    }
}

/// The value of a string of hexadecimal digits, most significant first.
pub open spec fn group_val(s: Seq<char>) -> nat
    decreases s.len(),
{
    if s.len() == 0 {
        0
    } else {
        group_val(s.drop_last()) * 16 + hex_digit_val(s.last())
    }
}

/// One valid address group: nonempty, hexadecimal digits only, and a value
/// that fits in one octet.
pub open spec fn is_hex_group(s: Seq<char>) -> bool {
    &&& s.len() >= 1
    &&& forall|i: int| 0 <= i < s.len() ==> is_hex_digit(#[trigger] s[i])
    &&& group_val(s) <= 255
}

/// A prefix of a digit string never has a larger value than the whole.
proof fn lemma_group_val_prefix(s: Seq<char>, i: int)
    requires
        0 <= i <= s.len(),
    ensures
        group_val(s.take(i)) <= group_val(s),
    decreases s.len() - i,
{
    if i == s.len() {
        assert(s.take(i) =~= s);
    } else {
        assert(s.take(i + 1).drop_last() =~= s.take(i));
        assert(s.take(i + 1).last() == s[i]);
        lemma_group_val_prefix(s, i + 1);
    }
}

fn hex_digit_value(c: char) -> (r: Option<u8>)
    ensures
        r is Some <==> is_hex_digit(c),
        r matches Some(d) ==> d as nat == hex_digit_val(c),
{
    match c {
        '0' => Some(0),
        '1' => Some(1),
        '2' => Some(2),
        '3' => Some(3),
        '4' => Some(4),
        '5' => Some(5),
        '6' => Some(6),
        '7' => Some(7),
        '8' => Some(8),
        '9' => Some(9),
        'a' => Some(10),
        'b' => Some(11),
        'c' => Some(12),
        'd' => Some(13),
        'e' => Some(14),
        'f' => Some(15),
        'A' => Some(10),
        'B' => Some(11),
        'C' => Some(12),
        'D' => Some(13),
        'E' => Some(14),
        'F' => Some(15),
        _ => None,
    }
}

/// Parses one group of hexadecimal digits as an octet. Fails, naming the
/// offending group, when the group is empty, holds a non-hexadecimal
/// character, or exceeds one octet.
pub fn str_to_byte(hex: &str) -> (r: Result<u8, WakeError>)
    ensures
        r is Ok <==> is_hex_group(hex@),
        r matches Ok(v) ==> v as nat == group_val(hex@),
        r matches Err(e) ==> e matches WakeError::FormatError(t) && t@ == hex@,
{
    let n = hex.unicode_len();
    if n == 0 {
        return Err(WakeError::FormatError(hex.to_owned()));
    }
    let mut acc: u32 = 0;
    let mut i: usize = 0;
    proof {
        assert(hex@.take(0) =~= Seq::<char>::empty());
    }
    while i < n
        invariant
            i <= n,
            n == hex@.len(),
            acc as nat == group_val(hex@.take(i as int)),
            acc <= 255,
            forall|k: int| 0 <= k < i ==> is_hex_digit(#[trigger] hex@[k]),
        decreases n - i,
    {
        let c = hex.get_char(i);
        let d = match hex_digit_value(c) {
            Some(d) => d,
            None => {
                return Err(WakeError::FormatError(hex.to_owned()));
            },
        };
        let acc2 = acc * 16 + d as u32;
        proof {
            assert(hex@.take(i + 1).drop_last() =~= hex@.take(i as int));
            assert(hex@.take(i + 1).last() == hex@[i as int]);
        }
        if acc2 > 255 {
            proof {
                lemma_group_val_prefix(hex@, i + 1);
            }
            return Err(WakeError::FormatError(hex.to_owned()));
        }
        acc = acc2;
        i = i + 1;
    }
    proof {
        assert(hex@.take(n as int) =~= hex@);
    }
    Ok(acc as u8)
}

/// A six-octet hardware address.
pub struct HardwareAddress {
    octets: Vec<u8>,
}

impl View for HardwareAddress {
    type V = Seq<u8>;

    closed spec fn view(&self) -> Seq<u8> {
        self.octets@
    }
}

/// The groups of an address string: the pieces between the `-` delimiters.
pub open spec fn mac_groups(s: Seq<char>) -> Seq<Seq<char>> {
    split_on(s, '-')
}

/// A valid textual hardware address: exactly six groups, each a valid
/// hexadecimal octet.
pub open spec fn is_valid_mac(s: Seq<char>) -> bool {
    &&& mac_groups(s).len() == 6
    &&& forall|i: int| 0 <= i < 6 ==> is_hex_group(#[trigger] mac_groups(s)[i])
}

/// The octets a valid address string denotes.
pub open spec fn mac_bytes(s: Seq<char>) -> Seq<u8> {
    Seq::new(mac_groups(s).len(), |i: int| group_val(mac_groups(s)[i]) as u8)
}

impl HardwareAddress {
    /// A parsed address always holds exactly six octets.
    pub open spec fn wf(&self) -> bool {
        self@.len() == 6
    }

    /// Builds an address from six octets.
    pub fn from_octets(octets: Vec<u8>) -> (r: Self)
        requires
            octets@.len() == 6,
        ensures
            r.wf(),
            r@ == octets@,
    {
        HardwareAddress { octets }
    }

    /// The octet at position `i`.
    pub fn octet(&self, i: usize) -> (r: u8)
        requires
            self.wf(),
            i < 6,
        ensures
            r == self@[i as int],
    {
        self.octets[i]
    }
}

/// The upper-case hexadecimal digit of a value below sixteen.
pub open spec fn hex_upper_char(d: nat) -> char {
    if d == 0 {
        '0'
    } else if d == 1 {
        '1'
    } else if d == 2 {
        '2'
    } else if d == 3 {
        '3'
    } else if d == 4 {
        '4'
    } else if d == 5 {
        '5'
    } else if d == 6 {
        '6'
    } else if d == 7 {
        '7'
    } else if d == 8 {
        '8'
    } else if d == 9 {
        '9'
    } else if d == 10 {
        'A'
    } else if d == 11 {
        'B'
    } else if d == 12 {
        'C'
    } else if d == 13 {
        'D'
    } else if d == 14 {
        'E'
    } else {
        'F'
    }
}

/// The canonical two-digit upper-case text of one octet.
pub open spec fn group_text(b: u8) -> Seq<char> {
    seq![hex_upper_char(b as nat / 16), hex_upper_char(b as nat % 16)]
}

/// The canonical upper-case text of six octets, `-` between the groups.
pub open spec fn canonical_seq(bs: Seq<u8>) -> Seq<char>
    recommends
        bs.len() == 6,
{
    group_text(bs[0]) + seq!['-'] + group_text(bs[1]) + seq!['-'] + group_text(bs[2]) + seq!['-']
        + group_text(bs[3]) + seq!['-'] + group_text(bs[4]) + seq!['-'] + group_text(bs[5])
}

/// The digit characters of the canonical form are hexadecimal digits with
/// the value they came from, and are never the delimiter.
proof fn lemma_hex_upper_char(d: nat)
    requires
        d < 16,
    ensures
        is_hex_digit(hex_upper_char(d)),
        hex_digit_val(hex_upper_char(d)) == d,
        hex_upper_char(d) != '-',
{
}

/// The canonical text of one octet is a valid group denoting that octet.
proof fn lemma_group_text(b: u8)
    ensures
        is_hex_group(group_text(b)),
        group_val(group_text(b)) == b as nat,
        forall|i: int| 0 <= i < group_text(b).len() ==> #[trigger] group_text(b)[i] != '-',
{
    let h = hex_upper_char(b as nat / 16);
    let l = hex_upper_char(b as nat % 16);
    lemma_hex_upper_char(b as nat / 16);
    lemma_hex_upper_char(b as nat % 16);
    assert(seq![h, l].drop_last() =~= seq![h]);
    assert(seq![h].drop_last() =~= Seq::<char>::empty());
    assert(group_val(Seq::<char>::empty()) == 0);
    assert(seq![h].last() == h);
    assert(seq![h, l].last() == l);
    assert(group_val(seq![h]) == hex_digit_val(h));
    assert(group_val(group_text(b)) == (b as nat / 16) * 16 + b as nat % 16);
    assert((b as nat / 16) * 16 + b as nat % 16 == b as nat) by (nonlinear_arith);
}

/// The canonical text of six octets splits back into its six groups, so it
/// is itself a valid address string denoting the same six octets.
pub proof fn lemma_canonical_parses(bs: Seq<u8>)
    requires
        bs.len() == 6,
    ensures
        is_valid_mac(canonical_seq(bs)),
        mac_bytes(canonical_seq(bs)) == bs,
{
    let g0 = group_text(bs[0]);
    let g1 = group_text(bs[1]);
    let g2 = group_text(bs[2]);
    let g3 = group_text(bs[3]);
    let g4 = group_text(bs[4]);
    let g5 = group_text(bs[5]);
    lemma_group_text(bs[0]);
    lemma_group_text(bs[1]);
    lemma_group_text(bs[2]);
    lemma_group_text(bs[3]);
    lemma_group_text(bs[4]);
    lemma_group_text(bs[5]);
    let t4 = g4 + seq!['-'] + g5;
    let t3 = g3 + seq!['-'] + t4;
    let t2 = g2 + seq!['-'] + t3;
    let t1 = g1 + seq!['-'] + t2;
    let t0 = g0 + seq!['-'] + t1;
    assert(canonical_seq(bs) =~= t0);
    lemma_split_on_concat(g4, g5, '-');
    lemma_split_on_no_delim(g4, '-');
    lemma_split_on_no_delim(g5, '-');
    lemma_split_on_concat(g3, t4, '-');
    lemma_split_on_no_delim(g3, '-');
    lemma_split_on_concat(g2, t3, '-');
    lemma_split_on_no_delim(g2, '-');
    lemma_split_on_concat(g1, t2, '-');
    lemma_split_on_no_delim(g1, '-');
    lemma_split_on_concat(g0, t1, '-');
    lemma_split_on_no_delim(g0, '-');
    assert(split_on(t0, '-') =~~= seq![g0, g1, g2, g3, g4, g5]);
    assert(mac_bytes(canonical_seq(bs)) =~= bs);
}

fn hex_upper_str(d: u8) -> (r: &'static str)
    requires
        d < 16,
    ensures
        r@ == seq![hex_upper_char(d as nat)],
{
    let r: &'static str = match d {
        0 => "0",
        1 => "1",
        2 => "2",
        3 => "3",
        4 => "4",
        5 => "5",
        6 => "6",
        7 => "7",
        8 => "8",
        9 => "9",
        10 => "A",
        11 => "B",
        12 => "C",
        13 => "D",
        14 => "E",
        _ => "F",
    };
    proof {
        reveal_strlit("0");
        reveal_strlit("1");
        reveal_strlit("2");
        reveal_strlit("3");
        reveal_strlit("4");
        reveal_strlit("5");
        reveal_strlit("6");
        reveal_strlit("7");
        reveal_strlit("8");
        reveal_strlit("9");
        reveal_strlit("A");
        reveal_strlit("B");
        reveal_strlit("C");
        reveal_strlit("D");
        reveal_strlit("E");
        reveal_strlit("F");
        assert(r@ =~= seq![hex_upper_char(d as nat)]);
    }
    r
}

impl HardwareAddress {
    /// The canonical text of this address: six two-digit upper-case
    /// hexadecimal groups separated by `-`.
    pub fn canonical(&self) -> (r: String)
        requires
            self.wf(),
        ensures
            r@ == canonical_seq(self@),
    {
        let mut out = String::new();
        proof {
            reveal_strlit("-");
        }
        let o = self.octet(0);
        out.append(hex_upper_str(o / 16));
        out.append(hex_upper_str(o % 16));
        out.append("-");
        let o = self.octet(1);
        out.append(hex_upper_str(o / 16));
        out.append(hex_upper_str(o % 16));
        out.append("-");
        let o = self.octet(2);
        out.append(hex_upper_str(o / 16));
        out.append(hex_upper_str(o % 16));
        out.append("-");
        let o = self.octet(3);
        out.append(hex_upper_str(o / 16));
        out.append(hex_upper_str(o % 16));
        out.append("-");
        let o = self.octet(4);
        out.append(hex_upper_str(o / 16));
        out.append(hex_upper_str(o % 16));
        out.append("-");
        let o = self.octet(5);
        out.append(hex_upper_str(o / 16));
        out.append(hex_upper_str(o % 16));
        proof {
            assert(("-")@ =~= seq!['-']);
            assert(out@ =~= canonical_seq(self@));
        }
        out
    }
}

/// Parsing a valid address string, then serializing the octets to the
/// canonical upper-case form, loses nothing: the canonical form is itself
/// valid and parses back to the same octets.
pub proof fn lemma_parse_canonical_roundtrip(s: Seq<char>)
    requires
        is_valid_mac(s),
    ensures
        is_valid_mac(canonical_seq(mac_bytes(s))),
        mac_bytes(canonical_seq(mac_bytes(s))) == mac_bytes(s),
{
    lemma_canonical_parses(mac_bytes(s));
}

/// Parses the textual form of a hardware address: six groups of hexadecimal
/// digits separated by `-`, either case. Fails, naming the offending string,
/// on any other shape.
pub fn parse_mac(mac: &str) -> (r: Result<HardwareAddress, WakeError>)
    ensures
        r is Ok <==> is_valid_mac(mac@),
        r matches Ok(a) ==> a.wf() && a@ == mac_bytes(mac@),
        r matches Err(e) ==> e matches WakeError::FormatError(t) && t@ == mac@,
{
    let parts = crate::text::split_str(mac, '-');
    if parts.len() != 6 {
        return Err(WakeError::FormatError(mac.to_owned()));
    }
    let mut octets: Vec<u8> = Vec::new();
    let mut i: usize = 0;
    while i < 6
        invariant
            i <= 6,
            parts@.len() == 6,
            mac_groups(mac@).len() == 6,
            forall|k: int| 0 <= k < 6 ==> #[trigger] parts@[k]@ == mac_groups(mac@)[k],
            octets@.len() == i,
            forall|k: int|
                0 <= k < i ==> is_hex_group(#[trigger] mac_groups(mac@)[k]) && octets@[k] as nat
                    == group_val(mac_groups(mac@)[k]),
        decreases 6 - i,
    {
        match str_to_byte(parts[i]) {
            Ok(v) => {
                octets.push(v);
            },
            Err(_) => {
                return Err(WakeError::FormatError(mac.to_owned()));
            },
        }
        i = i + 1;
    }
    let a = HardwareAddress::from_octets(octets);
    proof {
        assert(a@ =~= mac_bytes(mac@));
    }
    Ok(a)
}

} // verus!
