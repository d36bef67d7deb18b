//! Byte-string encodings and path text helpers: lowercase hex, zero-padded
//! decimal rendering, and the small path operations (join, basename) that
//! destination paths are built from.
use vstd::prelude::*;

verus! {

/// Renders the lowercase hex digit for a value below sixteen.
pub open spec fn hex_digit(n: int) -> u8 {
    if n < 10 {
        (48 + n) as u8
    } else {
        (87 + n) as u8
    }
}

/// Hex encoding of a byte string: two lowercase digits per byte.
pub open spec fn hex_of(s: Seq<u8>) -> Seq<u8>
    decreases s.len(),
{
    if s.len() == 0 {
        Seq::empty()
    } else {
        seq![hex_digit(s[0] as int / 16), hex_digit(s[0] as int % 16)] + hex_of(s.drop_first())
    }
}

/// Encodes bytes as lowercase hexadecimal text.
pub fn hex_encode(bytes: &Vec<u8>) -> (r: Vec<u8>)
    ensures
        r@ == hex_of(bytes@),
        r@.len() == 2 * bytes@.len(),
{
    let mut out: Vec<u8> = Vec::new();
    let mut i: usize = 0;
    proof {
        assert(bytes@.skip(0) =~= bytes@);
    }
    while i < bytes.len()
        invariant
            i <= bytes@.len(),
            out@.len() == 2 * i,
            hex_of(bytes@) == out@ + hex_of(bytes@.skip(i as int)),
        decreases bytes@.len() - i,
    {
        let b = bytes[i];
        let hi: u8 = b / 16;
        let lo: u8 = b % 16;
        let hi_c: u8 = if hi < 10 { 48 + hi } else { 87 + hi };
        let lo_c: u8 = if lo < 10 { 48 + lo } else { 87 + lo };
        proof {
            let s = bytes@.skip(i as int);
            assert(s[0] == bytes@[i as int]);
            assert(s.drop_first() =~= bytes@.skip(i as int + 1));
            assert(hex_of(s) == seq![hex_digit(s[0] as int / 16), hex_digit(s[0] as int % 16)]
                + hex_of(s.drop_first()));
            assert(out@ + hex_of(s) =~= (out@ + seq![hi_c, lo_c]) + hex_of(
                bytes@.skip(i as int + 1),
            ));
        }
        out.push(hi_c);
        out.push(lo_c);
        i = i + 1;
    }
    proof {
        assert(bytes@.skip(bytes@.len() as int) =~= Seq::<u8>::empty());
    }
    out
}

/// Decimal rendering of a number, most significant digit first, no padding.
pub open spec fn dec_of(n: nat) -> Seq<u8>
    decreases n,
{
    if n < 10 {
        seq![(48 + n) as u8]
    } else {
        dec_of(n / 10) + seq![(48 + n % 10) as u8]
    }
}

/// Decimal rendering zero-padded on the left to at least `width` characters.
pub open spec fn padded_dec_of(n: nat, width: nat) -> Seq<u8> {
    if dec_of(n).len() >= width {
        dec_of(n)
    } else {
        Seq::new((width - dec_of(n).len()) as nat, |i: int| 48u8) + dec_of(n)
    }
}

/// Appends the decimal digits of `n` to `out`.
pub fn push_dec(n: u64, out: &mut Vec<u8>)
    ensures
        final(out)@ == old(out)@ + dec_of(n as nat),
    decreases n,
{
    if n < 10 {
        out.push(48 + n as u8);
    } else {
        assert(n / 10 < n);
        push_dec(n / 10, out);
        out.push(48 + (n % 10) as u8);
        proof {
            assert(old(out)@ + dec_of(n as nat / 10) + seq![(48 + n as nat % 10) as u8] =~= old(
                out,
            )@ + dec_of(n as nat));
        }
    }
}

/// Appends the zero-padded decimal rendering of `n` to `out`.
pub fn append_dec_padded(n: u64, width: usize, out: &mut Vec<u8>)
    ensures
        final(out)@ == old(out)@ + padded_dec_of(n as nat, width as nat),
{
    let mut digits: Vec<u8> = Vec::new();
    push_dec(n, &mut digits);
    let pad: usize = if digits.len() >= width {
        0
    } else {
        width - digits.len()
    };
    let mut z: usize = 0;
    while z < pad
        invariant
            z <= pad,
            out@ == old(out)@ + Seq::new(z as nat, |i: int| 48u8),
        decreases pad - z,
    {
        proof {
            assert(Seq::new(z as nat + 1, |i: int| 48u8) =~= Seq::new(z as nat, |i: int| 48u8)
                + seq![48u8]);
            assert(old(out)@ + Seq::new(z as nat, |i: int| 48u8) + seq![48u8] =~= old(out)@
                + Seq::new(z as nat + 1, |i: int| 48u8));
        }
        out.push(48);
        z = z + 1;
    }
    let mut k: usize = 0;
    while k < digits.len()
        invariant
            k <= digits@.len(),
            out@ == old(out)@ + Seq::new(pad as nat, |i: int| 48u8) + digits@.take(k as int),
        decreases digits@.len() - k,
    {
        proof {
            assert(digits@.take(k as int + 1) =~= digits@.take(k as int) + seq![digits@[k as int]]);
            assert(old(out)@ + Seq::new(pad as nat, |i: int| 48u8) + digits@.take(k as int) + seq![
                digits@[k as int],
            ] =~= old(out)@ + Seq::new(pad as nat, |i: int| 48u8) + digits@.take(k as int + 1));
        }
        let d = digits[k];
        out.push(d);
        k = k + 1;
    }
    proof {
        assert(digits@.take(digits@.len() as int) =~= digits@);
        if pad == 0 {
            assert(Seq::new(0, |i: int| 48u8) =~= Seq::<u8>::empty());
            assert(old(out)@ + Seq::new(0, |i: int| 48u8) + digits@ =~= old(out)@ + padded_dec_of(
                n as nat,
                width as nat,
            ));
        } else {
            assert(old(out)@ + Seq::new(pad as nat, |i: int| 48u8) + digits@ =~= old(out)@
                + padded_dec_of(n as nat, width as nat));
        }
    }
}

/// Appends all of `src` to `out`.
pub fn append_bytes(out: &mut Vec<u8>, src: &Vec<u8>)
    ensures
        final(out)@ == old(out)@ + src@,
{
    let mut k: usize = 0;
    while k < src.len()
        invariant
            k <= src@.len(),
            out@ == old(out)@ + src@.take(k as int),
        decreases src@.len() - k,
    {
        proof {
            assert(src@.take(k as int + 1) =~= src@.take(k as int) + seq![src@[k as int]]);
            assert(old(out)@ + src@.take(k as int) + seq![src@[k as int]] =~= old(out)@ + src@.take(
                k as int + 1,
            ));
        }
        let b = src[k];
        out.push(b);
        k = k + 1;
    }
    proof {
        assert(src@.take(src@.len() as int) =~= src@);
    }
}

/// Equality of two byte strings.
pub fn bytes_eq(a: &Vec<u8>, b: &Vec<u8>) -> (r: bool)
    ensures
        r == (a@ == b@),
{
    if a.len() != b.len() {
        proof {
            assert(a@.len() != b@.len());
        }
        return false;
    }
    let mut i: usize = 0;
    while i < a.len()
        invariant
            a@.len() == b@.len(),
            i <= a@.len(),
            forall|k: int| 0 <= k < i ==> a@[k] == b@[k],
        decreases a@.len() - i,
    {
        if a[i] != b[i] {
            return false;
        }
        i = i + 1;
    }
    proof {
        assert(a@ =~= b@);
    }
    true
}

/// Joining two path pieces: a slash between them unless the left one is empty.
pub open spec fn join(a: Seq<u8>, b: Seq<u8>) -> Seq<u8> {
    if a.len() == 0 {
        b
    } else {
        a + seq![47u8] + b
    }
}

/// Joins two path pieces with a slash, leaving out a leading slash when the
/// left piece is empty.
pub fn join_path(a: &Vec<u8>, b: &Vec<u8>) -> (r: Vec<u8>)
    ensures
        r@ == join(a@, b@),
{
    let mut r: Vec<u8> = Vec::new();
    append_bytes(&mut r, a);
    if a.len() > 0 {
        r.push(47);
    }
    append_bytes(&mut r, b);
    proof {
        if a@.len() == 0 {
            assert(Seq::<u8>::empty() + a@ + b@ =~= join(a@, b@));
        } else {
            assert(Seq::<u8>::empty() + a@ + seq![47u8] + b@ =~= join(a@, b@));
        }
    }
    r
}

/// The final path component: everything after the last slash.
pub open spec fn basename(p: Seq<u8>) -> Seq<u8>
    decreases p.len(),
{
    if p.len() == 0 {
        p
    } else if p.last() == 47 {
        Seq::empty()
    } else {
        basename(p.drop_last()).push(p.last())
    }
}

proof fn lemma_basename_skip(p: Seq<u8>, j: int)
    requires
        0 <= j <= p.len(),
        forall|k: int| j <= k < p.len() ==> p[k] != 47,
        j > 0 ==> p[j - 1] == 47,
    ensures
        basename(p) == p.skip(j),
    decreases p.len(),
{
    if p.len() == 0 {
        assert(p.skip(0) =~= p);
    } else if j == p.len() {
        if j > 0 {
            assert(p.last() == 47);
            assert(p.skip(j) =~= Seq::<u8>::empty());
        }
    } else {
        assert(p.last() != 47);
        lemma_basename_skip(p.drop_last(), j);
        assert(p.drop_last().skip(j).push(p.last()) =~= p.skip(j));
    }
}

/// Returns the final path component of `p`: the text after the last slash.
pub fn path_basename(p: &Vec<u8>) -> (r: Vec<u8>)
    ensures
        r@ == basename(p@),
{
    let mut j: usize = 0;
    let mut k: usize = 0;
    while k < p.len()
        invariant
            0 <= j <= k <= p@.len(),
            forall|t: int| j <= t < k ==> p@[t] != 47,
            j > 0 ==> p@[j - 1] == 47,
        decreases p@.len() - k,
    {
        if p[k] == 47 {
            j = k + 1;
        }
        k = k + 1;
    }
    let mut r: Vec<u8> = Vec::new();
    let mut t: usize = j;
    while t < p.len()
        invariant
            j <= t <= p@.len(),
            r@ == p@.subrange(j as int, t as int),
        decreases p@.len() - t,
    {
        proof {
            assert(p@.subrange(j as int, t as int + 1) =~= p@.subrange(j as int, t as int) + seq![
                p@[t as int],
            ]);
        }
        let b = p[t];
        r.push(b);
        t = t + 1;
    }
    proof {
        lemma_basename_skip(p@, j as int);
        assert(p@.subrange(j as int, p@.len() as int) =~= p@.skip(j as int));
    }
    r
}


/// A fresh owned copy of a byte string.
pub fn clone_bytes(src: &Vec<u8>) -> (r: Vec<u8>)
    ensures
        r@ == src@,
{
    let mut r: Vec<u8> = Vec::new();
    append_bytes(&mut r, src);
    proof {
        assert(Seq::<u8>::empty() + src@ =~= src@);
    }
    r
}

/// The first `split` characters of the hex encoding of a digest: the
/// hash-split directory segment.
pub fn hash_segment(digest: &Vec<u8>, split: usize) -> (r: Vec<u8>)
    requires
        split <= 2 * digest@.len(),
    ensures
        r@ == hex_of(digest@).take(split as int),
{
    let hx = hex_encode(digest);
    let mut r: Vec<u8> = Vec::new();
    let mut i: usize = 0;
    while i < split
        invariant
            i <= split,
            split <= hx@.len(),
            hx@ == hex_of(digest@),
            r@ == hx@.take(i as int),
        decreases split - i,
    {
        proof {
            assert(hx@.take(i as int + 1) =~= hx@.take(i as int) + seq![hx@[i as int]]);
        }
        let b = hx[i];
        r.push(b);
        i = i + 1;
    }
    r
}

} // verus!
