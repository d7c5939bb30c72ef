use vstd::prelude::*;

verus! {

/// Entry `v` of the table inverse to the first `n` entries of `swap`: the
/// last index below `n` that `swap` maps to `v`, or 0 where there is none.
pub open spec fn inverse_entry(swap: Seq<u8>, v: u8, n: int) -> u8
    decreases n,
{
    if n <= 0 {
        0
    } else if swap[n - 1] == v {
        (n - 1) as u8
    } else {
        inverse_entry(swap, v, n - 1)
    }
}

/// The reverse table built from a 256-entry swap table.
pub open spec fn reverse_table(swap: Seq<u8>) -> Seq<u8> {
    Seq::new(256, |v: int| inverse_entry(swap, v as u8, 256))
}

/// `t` is a bijection over the byte values.
pub open spec fn is_byte_permutation(t: Seq<u8>) -> bool {
    &&& t.len() == 256
    &&& forall|i: int, j: int| 0 <= i < 256 && 0 <= j < 256 && i != j ==> t[i] != t[j]
    &&& forall|v: int| 0 <= v < 256 ==> #[trigger] takes_value(t, v)
}

/// Some entry of the 256-entry table `t` is `v`.
pub open spec fn takes_value(t: Seq<u8>, v: int) -> bool {
    exists|i: int| 0 <= i < 256 && t[i] as int == v
}

/// First pass: every byte of the region after its first is substituted
/// through `rev`, then reduced by the scrambled byte before it and by its
/// distance from the region start, modulo 256.
pub open spec fn pass1(d: Seq<u8>, rev: Seq<u8>, pos: int, len: int) -> Seq<u8> {
    Seq::new(
        d.len(),
        |j: int|
            if pos + 1 <= j < pos + len {
                rev[d[j] as int].wrapping_sub(d[j - 1]).wrapping_sub(((j - pos) % 256) as u8)
            } else {
                d[j]
            },
    )
}

/// The index that position `i` of the region starting at `pos` is swapped with.
pub open spec fn partner(swap: Seq<u8>, pos: int, i: int) -> int {
    let s = swap[(i - pos) % 256] as int;
    if i - s < pos {
        pos
    } else {
        i - s
    }
}

/// Second pass, from index `i` down to `pos`: each byte is swapped with its partner.
pub open spec fn unswap_down(d: Seq<u8>, swap: Seq<u8>, pos: int, i: int) -> Seq<u8>
    decreases i - pos + 1,
{
    if i < pos {
        d
    } else {
        let b = partner(swap, pos, i);
        unswap_down(d.update(i, d[b]).update(b, d[i]), swap, pos, i - 1)
    }
}

/// The buffer `d` once the region `[pos, pos + len)` is decrypted with `swap`.
pub open spec fn decrypted(d: Seq<u8>, swap: Seq<u8>, pos: int, len: int) -> Seq<u8> {
    unswap_down(pass1(d, reverse_table(swap), pos, len), swap, pos, pos + len - 2)
}

proof fn lemma_inverse_entry_finds(swap: Seq<u8>, j: int, n: int)
    requires
        swap.len() == 256,
        0 <= j < n <= 256,
        forall|a: int, b: int| 0 <= a < 256 && 0 <= b < 256 && a != b ==> swap[a] != swap[b],
    ensures
        inverse_entry(swap, swap[j], n) == j,
    decreases n,
{
    if swap[n - 1] != swap[j] {
        lemma_inverse_entry_finds(swap, j, n - 1);
    }
}

/// The reverse table of a swap table that is a permutation is its inverse,
/// on both sides.
pub proof fn lemma_reverse_table_inverts(swap: Seq<u8>)
    requires
        is_byte_permutation(swap),
    ensures
        forall|x: int| 0 <= x < 256 ==> #[trigger] reverse_table(swap)[swap[x] as int] == x,
        forall|x: int| 0 <= x < 256 ==> swap[#[trigger] reverse_table(swap)[x] as int] == x,
{
    assert forall|x: int| 0 <= x < 256 implies #[trigger] reverse_table(swap)[swap[x] as int]
        == x by {
        lemma_inverse_entry_finds(swap, x, 256);
    }
    assert forall|x: int| 0 <= x < 256 implies swap[#[trigger] reverse_table(swap)[x] as int]
        == x by {
        assert(takes_value(swap, x));
        let i = choose|i: int| 0 <= i < 256 && swap[i] as int == x;
        lemma_inverse_entry_finds(swap, i, 256);
    }
}

/// Builds the reverse table of a 256-entry swap table.
pub fn build_reverse_table(swap: &Vec<u8>) -> (rev: Vec<u8>)
    requires
        swap.len() == 256,
    ensures
        rev@ == reverse_table(swap@),
{
    let mut rev: Vec<u8> = Vec::new();
    let mut k: usize = 0;
    while k < 256
        invariant
            k <= 256,
            rev.len() == k,
            forall|v: int| 0 <= v < k ==> rev@[v] == 0u8,
        decreases 256 - k,
    {
        rev.push(0u8);
        k = k + 1;
    }
    let mut i: usize = 0;
    while i < 256
        invariant
            i <= 256,
            swap.len() == 256,
            rev.len() == 256,
            forall|v: int| 0 <= v < 256 ==> rev@[v] == inverse_entry(swap@, v as u8, i as int),
        decreases 256 - i,
    {
        let s = swap[i] as usize;
        rev.set(s, i as u8);
        i = i + 1;
    }
    assert(rev@ =~= reverse_table(swap@));
    rev
}

/// Decrypts the region `[pos, pos + len)` of `data` in place with `swap`.
pub fn decrypt_region(data: &mut Vec<u8>, swap: &Vec<u8>, pos: usize, len: usize)
    requires
        swap.len() == 256,
        pos + len <= old(data).len(),
    ensures
        final(data).len() == old(data).len(),
        final(data)@ == decrypted(old(data)@, swap@, pos as int, len as int),
{
    let rev = build_reverse_table(swap);
    let ghost orig = data@;
    let ghost substituted = pass1(orig, rev@, pos as int, len as int);
    let mut j: usize = pos + len;
    while j - pos > 1
        invariant
            pos <= j <= pos + len,
            substituted == pass1(orig, rev@, pos as int, len as int),
            pos + len <= data.len(),
            data.len() == orig.len(),
            rev.len() == 256,
            forall|k: int|
                0 <= k < data.len() ==> #[trigger] data@[k] == if k >= j && k >= pos + 1 {
                    substituted[k]
                } else {
                    orig[k]
                },
        decreases j,
    {
        j = j - 1;
        assert(data@[j as int] == orig[j as int]);
        assert(data@[j - 1] == orig[j - 1]);
        let r = rev[data[j] as usize];
        let v = r.wrapping_sub(data[j - 1]).wrapping_sub(((j - pos) % 256) as u8);
        assert(v == substituted[j as int]);
        data.set(j, v);
    }
    assert(data@ =~= substituted);
    let ghost target = unswap_down(substituted, swap@, pos as int, pos + len - 2);
    let mut n: usize = if len >= 2 {
        len - 1
    } else {
        0
    };
    while n > 0
        invariant
            n < len || n == 0,
            data.len() == orig.len(),
            pos + len <= data.len(),
            swap.len() == 256,
            unswap_down(data@, swap@, pos as int, pos + n - 1) == target,
        decreases n,
    {
        let i = pos + n - 1;
        let s = swap[(i - pos) % 256] as usize;
        let b = if i - pos < s {
            pos
        } else {
            i - s
        };
        let a = data[i];
        let x = data[b];
        data.set(i, x);
        data.set(b, a);
        n = n - 1;
    }
}

} // verus!
