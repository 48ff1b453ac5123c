use vstd::prelude::*;

verus! {

/// The lower-case hexadecimal digit of a value below sixteen.
pub open spec fn hex_digit(n: u8) -> char {
    seq!['0', '1', '2', '3', '4', '5', '6', '7', '8', '9', 'a', 'b', 'c', 'd', 'e', 'f'][n as int]
}

/// Two lower-case hexadecimal digits per byte, high nibble first.
pub open spec fn hex_seq(b: Seq<u8>) -> Seq<char>
    decreases b.len(),
{
    if b.len() == 0 {
        Seq::empty()
    } else {
        let x = b.last();
        hex_seq(b.drop_last()) + seq![hex_digit(x / 16), hex_digit(x % 16)]
    }
}

/// Every character of `s` is a lower-case hexadecimal digit.
pub open spec fn is_lower_hex(s: Seq<char>) -> bool {
    forall|i: int|
        0 <= i < s.len() ==> (('0' <= #[trigger] s[i] && s[i] <= '9') || ('a' <= s[i] && s[i]
            <= 'f'))
}

/// Hex text has two digits per byte, all lower-case hexadecimal.
pub proof fn lemma_hex_seq_shape(b: Seq<u8>)
    ensures
        hex_seq(b).len() == 2 * b.len(),
        is_lower_hex(hex_seq(b)),
    decreases b.len(),
{
    if b.len() > 0 {
        lemma_hex_seq_shape(b.drop_last());
        let x = b.last();
        assert(x / 16 < 16 && x % 16 < 16);
        let tail = seq![hex_digit(x / 16), hex_digit(x % 16)];
        assert(is_lower_hex(tail));
    }
}

/// Encodes bytes as lower-case hexadecimal text.
pub fn lower_hex(b: &[u8]) -> (r: String)
    ensures
        r@ == hex_seq(b@),
        r@.len() == 2 * b@.len(),
        is_lower_hex(r@),
{
    let digits = "0123456789abcdef";
    proof {
        reveal_strlit("0123456789abcdef");
    }
    let mut out = String::new();
    let mut i: usize = 0;
    while i < b.len()
        invariant
            i <= b@.len(),
            digits@ == seq!['0', '1', '2', '3', '4', '5', '6', '7', '8', '9', 'a', 'b', 'c', 'd', 'e', 'f'],
            out@ == hex_seq(b@.subrange(0, i as int)),
        decreases b@.len() - i,
    {
        let x: u8 = b[i];
        let hi: usize = (x / 16) as usize;
        let lo: usize = (x % 16) as usize;
        let h = digits.substring_char(hi, hi + 1);
        let l = digits.substring_char(lo, lo + 1);
        out.append(h);
        out.append(l);
        proof {
            let p = b@.subrange(0, i as int + 1);
            assert(p.drop_last() =~= b@.subrange(0, i as int));
            assert(h@ =~= seq![hex_digit(x / 16)]);
            assert(l@ =~= seq![hex_digit(x % 16)]);
        }
        i = i + 1;
    }
    proof {
        assert(b@.subrange(0, b@.len() as int) =~= b@);
        lemma_hex_seq_shape(b@);
    }
    out
}

} // verus!
