//! Contract and account addresses as plain 20-byte values.
//!
//! Raw logs carry addresses inside 32-byte ABI words; the store and the
//! broadcast payloads carry them as lowercase `0x`-prefixed hex strings.
//! Both representations live here, with the formatting pinned down digit by
//! digit.

use vstd::prelude::*;
use vstd::string::StringExecFns;

verus! {

/// A 20-byte chain address.
#[derive(Debug)]
pub struct Address {
    pub bytes: Vec<u8>,
}

impl View for Address {
    type V = Seq<u8>;

    open spec fn view(&self) -> Seq<u8> {
        self.bytes@
    }
}

impl Address {
    /// A well-formed address holds exactly 20 bytes.
    pub open spec fn wf(&self) -> bool {
        self.bytes@.len() == 20
    }

    /// An explicit copy; the contracts of everything downstream speak of the
    /// view, which this preserves exactly.
    pub fn dup(&self) -> (r: Address)
        ensures
            r@ == self@,
    {
        let mut bytes: Vec<u8> = Vec::new();
        let mut i: usize = 0;
        while i < self.bytes.len()
            invariant
                i <= self.bytes@.len(),
                bytes@ == self.bytes@.subrange(0, i as int),
            decreases self.bytes@.len() - i,
        {
            bytes.push(self.bytes[i]);
            i = i + 1;
        }
        proof {
            assert(bytes@ =~= self.bytes@);
        }
        Address { bytes }
    }

    /// Format as the store and the wire protocol carry addresses: `0x`
    /// followed by the two lowercase hex digits of each byte.
    pub fn to_hex(&self) -> (s: String)
        ensures
            s@ == spec_hex(self@),
    {
        let mut s = String::from_str("0x");
        proof {
            reveal_strlit("0x");
            assert(s@ =~= spec_hex(self@).take(2));
        }
        let n = self.bytes.len();
        let mut i: usize = 0;
        while i < n
            invariant
                i <= n,
                n == self.bytes@.len(),
                s@ == spec_hex(self@).take(2 + 2 * i),
            decreases n - i,
        {
            let b = self.bytes[i];
            append_nibble(&mut s, b / 16);
            append_nibble(&mut s, b % 16);
            proof {
                assert(s@ =~= spec_hex(self@).take(2 + 2 * (i + 1)));
            }
            i = i + 1;
        }
        proof {
            assert(s@ =~= spec_hex(self@));
        }
        s
    }
}

impl PartialEq for Address {
    /// Addresses are equal exactly when their bytes are.
    fn eq(&self, other: &Address) -> (r: bool) {
        let r = self.bytes == other.bytes;
        proof {
            if r {
                assert(self.bytes@ =~= other.bytes@);
            }
        }
        r
    }
}

impl vstd::std_specs::cmp::PartialEqSpecImpl for Address {
    open spec fn obeys_eq_spec() -> bool {
        true
    }

    open spec fn eq_spec(&self, other: &Address) -> bool {
        self@ == other@
    }
}

/// The lowercase hex digit for one nibble.
pub open spec fn nibble_char(n: u8) -> char {
    if n == 0 { '0' }
    else if n == 1 { '1' }
    else if n == 2 { '2' }
    else if n == 3 { '3' }
    else if n == 4 { '4' }
    else if n == 5 { '5' }
    else if n == 6 { '6' }
    else if n == 7 { '7' }
    else if n == 8 { '8' }
    else if n == 9 { '9' }
    else if n == 10 { 'a' }
    else if n == 11 { 'b' }
    else if n == 12 { 'c' }
    else if n == 13 { 'd' }
    else if n == 14 { 'e' }
    else { 'f' }
}

/// `0x` followed by the two hex digits of each byte in order.
pub open spec fn spec_hex(bytes: Seq<u8>) -> Seq<char> {
    seq!['0', 'x'] + Seq::new(
        (2 * bytes.len()) as nat,
        |i: int| if i % 2 == 0 {
            nibble_char(bytes[i / 2] / 16)
        } else {
            nibble_char(bytes[i / 2] % 16)
        },
    )
}

/// Append one lowercase hex digit to a string being built.
fn append_nibble(s: &mut String, n: u8)
    requires
        n < 16,
    ensures
        final(s)@ == old(s)@ + seq![nibble_char(n)],
{
    if n == 0 {
        s.append("0");
        proof { reveal_strlit("0"); assert(s@ =~= old(s)@ + seq![nibble_char(n)]); }
    } else if n == 1 {
        s.append("1");
        proof { reveal_strlit("1"); assert(s@ =~= old(s)@ + seq![nibble_char(n)]); }
    } else if n == 2 {
        s.append("2");
        proof { reveal_strlit("2"); assert(s@ =~= old(s)@ + seq![nibble_char(n)]); }
    } else if n == 3 {
        s.append("3");
        proof { reveal_strlit("3"); assert(s@ =~= old(s)@ + seq![nibble_char(n)]); }
    } else if n == 4 {
        s.append("4");
        proof { reveal_strlit("4"); assert(s@ =~= old(s)@ + seq![nibble_char(n)]); }
    } else if n == 5 {
        s.append("5");
        proof { reveal_strlit("5"); assert(s@ =~= old(s)@ + seq![nibble_char(n)]); }
    } else if n == 6 {
        s.append("6");
        proof { reveal_strlit("6"); assert(s@ =~= old(s)@ + seq![nibble_char(n)]); }
    } else if n == 7 {
        s.append("7");
        proof { reveal_strlit("7"); assert(s@ =~= old(s)@ + seq![nibble_char(n)]); }
    } else if n == 8 {
        s.append("8");
        proof { reveal_strlit("8"); assert(s@ =~= old(s)@ + seq![nibble_char(n)]); }
    } else if n == 9 {
        s.append("9");
        proof { reveal_strlit("9"); assert(s@ =~= old(s)@ + seq![nibble_char(n)]); }
    } else if n == 10 {
        s.append("a");
        proof { reveal_strlit("a"); assert(s@ =~= old(s)@ + seq![nibble_char(n)]); }
    } else if n == 11 {
        s.append("b");
        proof { reveal_strlit("b"); assert(s@ =~= old(s)@ + seq![nibble_char(n)]); }
    } else if n == 12 {
        s.append("c");
        proof { reveal_strlit("c"); assert(s@ =~= old(s)@ + seq![nibble_char(n)]); }
    } else if n == 13 {
        s.append("d");
        proof { reveal_strlit("d"); assert(s@ =~= old(s)@ + seq![nibble_char(n)]); }
    } else if n == 14 {
        s.append("e");
        proof { reveal_strlit("e"); assert(s@ =~= old(s)@ + seq![nibble_char(n)]); }
    } else {
        s.append("f");
        proof { reveal_strlit("f"); assert(s@ =~= old(s)@ + seq![nibble_char(n)]); }
    }
}

/// Compare two strings by contents.
pub fn str_eq(a: &str, b: &str) -> (r: bool)
    ensures
        r == (a@ == b@),
{
    let sa = a.to_owned();
    let sb = b.to_owned();
    sa == sb
}

} // verus!
