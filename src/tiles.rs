use vstd::prelude::*;
use crate::atlas::normalize_path;
use crate::text::{chars_of, string_from_chars};

verus! {

/// Whether a foreground tile character is solid: everything but `0`.
pub open spec fn solid_tile(c: char) -> bool {
    c != '0'
}

/// Whether a foreground tile character is solid: everything but `0`.
pub fn is_solid_tile(c: char) -> (r: bool)
    ensures
        r == solid_tile(c),
{
    c != '0'
}

pub open spec fn png_suffix() -> Seq<char> {
    seq!['.', 'p', 'n', 'g']
}

pub open spec fn decals_prefix() -> Seq<char> {
    seq!['d', 'e', 'c', 'a', 'l', 's', '/']
}

/// The registry key of a decal texture: slashes for backslashes, no `.png`
/// suffix, and a `decals/` prefix.
pub open spec fn decal_key(texture: Seq<char>) -> Seq<char> {
    let k1 = normalize_path(texture);
    let k2 = if k1.len() >= 4 && k1.subrange(k1.len() - 4, k1.len() as int) == png_suffix() {
        k1.subrange(0, k1.len() - 4)
    } else {
        k1
    };
    if k2.len() >= 7 && k2.subrange(0, 7) == decals_prefix() {
        k2
    } else {
        decals_prefix() + k2
    }
}

/// The registry key of a decal texture path, as [`decal_key`] states.
pub fn normalize_decal_path(texture: &str) -> (r: String)
    ensures
        r@ == decal_key(texture@),
{
    let cs = chars_of(texture);
    let mut k: Vec<char> = Vec::new();
    let mut i: usize = 0;
    while i < cs.len()
        invariant
            0 <= i <= cs@.len(),
            cs@ == texture@,
            k@ == normalize_path(cs@.take(i as int)),
        decreases cs.len() - i,
    {
        let c = cs[i];
        k.push(if c == '\\' { '/' } else { c });
        assert(normalize_path(cs@.take(i + 1)) =~= normalize_path(cs@.take(i as int)).push(
            if c == '\\' { '/' } else { c },
        ));
        i = i + 1;
    }
    assert(cs@.take(cs@.len() as int) == cs@);
    let ghost k1 = k@;
    let n = k.len();
    if n >= 4 && k[n - 4] == '.' && k[n - 3] == 'p' && k[n - 2] == 'n' && k[n - 1] == 'g' {
        k.truncate(n - 4);
        assert(k1.subrange(k1.len() - 4, k1.len() as int) =~= png_suffix());
        assert(k@ =~= k1.subrange(0, k1.len() - 4));
    } else {
        assert(!(k1.len() >= 4 && k1.subrange(k1.len() - 4, k1.len() as int) == png_suffix())) by {
            if k1.len() >= 4 && k1.subrange(k1.len() - 4, k1.len() as int) == png_suffix() {
                assert(k1.subrange(k1.len() - 4, k1.len() as int)[0] == k1[k1.len() - 4]);
                assert(k1.subrange(k1.len() - 4, k1.len() as int)[1] == k1[k1.len() - 3]);
                assert(k1.subrange(k1.len() - 4, k1.len() as int)[2] == k1[k1.len() - 2]);
                assert(k1.subrange(k1.len() - 4, k1.len() as int)[3] == k1[k1.len() - 1]);
            }
        }
    }
    let ghost k2 = k@;
    let prefix = ['d', 'e', 'c', 'a', 'l', 's', '/'];
    assert(prefix@ =~= decals_prefix());
    let mut has_prefix = k.len() >= 7;
    let mut j: usize = 0;
    while has_prefix && j < 7
        invariant
            0 <= j <= 7,
            k@ == k2,
            prefix@ == decals_prefix(),
            has_prefix ==> k2.len() >= 7 && forall|m: int| 0 <= m < j ==> k2[m] == prefix@[m],
            !has_prefix ==> !(k2.len() >= 7 && k2.subrange(0, 7) == decals_prefix()),
        decreases 7 - j,
    {
        if k[j] != prefix[j] {
            has_prefix = false;
            assert(k2.subrange(0, 7)[j as int] == k2[j as int]);
        }
        j = j + 1;
    }
    if has_prefix {
        assert(k2.subrange(0, 7) =~= decals_prefix());
        string_from_chars(&k)
    } else {
        let mut out: Vec<char> = Vec::new();
        let mut m: usize = 0;
        while m < 7
            invariant
                0 <= m <= 7,
                prefix@ == decals_prefix(),
                out@ == decals_prefix().take(m as int),
            decreases 7 - m,
        {
            out.push(prefix[m]);
            assert(decals_prefix().take(m + 1) =~= decals_prefix().take(m as int).push(prefix@[m as int]));
            m = m + 1;
        }
        let mut q: usize = 0;
        while q < k.len()
            invariant
                0 <= q <= k@.len(),
                k@ == k2,
                out@ == decals_prefix() + k2.take(q as int),
            decreases k.len() - q,
        {
            out.push(k[q]);
            assert(k2.take(q + 1) =~= k2.take(q as int).push(k2[q as int]));
            assert(out@ =~= decals_prefix() + k2.take(q + 1));
            q = q + 1;
        }
        assert(decals_prefix().take(7) =~= decals_prefix());
        assert(k2.take(k2.len() as int) =~= k2);
        string_from_chars(&out)
    }
}

} // verus!
