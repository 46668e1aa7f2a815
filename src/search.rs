//! The search path on which referenced part files are looked for.
use vstd::prelude::*;
use crate::text::views;

verus! {

/// The subdirectories of the library root, in the order they are tried:
/// `p`, `p/48`, `parts`, `models`.
pub open spec fn search_dirs() -> Seq<Seq<u8>> {
    seq![
        seq![112u8],
        seq![112u8, 47, 52, 56],
        seq![112u8, 97, 114, 116, 115],
        seq![109u8, 111, 100, 101, 108, 115],
    ]
}

/// `root/dir/name`.
pub open spec fn candidate(root: Seq<u8>, dir: Seq<u8>, name: Seq<u8>) -> Seq<u8> {
    root + seq![47u8] + dir + seq![47u8] + name
}

/// Appends the bytes of `b` to `out`.
fn append_bytes(out: &mut Vec<u8>, b: &[u8])
    ensures
        final(out)@ == old(out)@ + b@,
{
    let ghost out0 = out@;
    let mut j: usize = 0;
    while j < b.len()
        invariant
            j <= b@.len(),
            out@ == out0 + b@.take(j as int),
        decreases b@.len() - j,
    {
        out.push(b[j]);
        j = j + 1;
        assert(out@ =~= out0 + b@.take(j as int));
    }
    assert(b@.take(j as int) =~= b@);
}

fn candidate_path(root: &[u8], dir: &[u8], name: &[u8]) -> (r: Vec<u8>)
    ensures
        r@ == candidate(root@, dir@, name@),
{
    let mut r: Vec<u8> = Vec::new();
    let slash: [u8; 1] = [47u8];
    assert(slash@ =~= seq![47u8]);
    append_bytes(&mut r, root);
    append_bytes(&mut r, slash.as_slice());
    append_bytes(&mut r, dir);
    append_bytes(&mut r, slash.as_slice());
    append_bytes(&mut r, name);
    assert(r@ =~= candidate(root@, dir@, name@));
    r
}

/// The paths at which a reference to `name` is looked for, in order.
pub fn candidate_paths(root: &[u8], name: &[u8]) -> (r: Vec<Vec<u8>>)
    ensures
        views(r@) == search_dirs().map_values(|d: Seq<u8>| candidate(root@, d, name@)),
{
    let d0: [u8; 1] = [112u8];
    let d1: [u8; 4] = [112u8, 47, 52, 56];
    let d2: [u8; 5] = [112u8, 97, 114, 116, 115];
    let d3: [u8; 6] = [109u8, 111, 100, 101, 108, 115];
    assert(d0@ =~= search_dirs()[0]);
    assert(d1@ =~= search_dirs()[1]);
    assert(d2@ =~= search_dirs()[2]);
    assert(d3@ =~= search_dirs()[3]);
    let mut r: Vec<Vec<u8>> = Vec::new();
    r.push(candidate_path(root, d0.as_slice(), name));
    r.push(candidate_path(root, d1.as_slice(), name));
    r.push(candidate_path(root, d2.as_slice(), name));
    r.push(candidate_path(root, d3.as_slice(), name));
    assert(views(r@) =~= search_dirs().map_values(|d: Seq<u8>| candidate(root@, d, name@)));
    r
}

/// Index of the first candidate that names an existing file.
pub fn first_existing(exists: &Vec<bool>) -> (r: Option<usize>)
    ensures
        match r {
            Some(i) => i < exists@.len() && exists@[i as int] && forall|k: int| 0 <= k < i ==> !exists@[k],
            None => forall|k: int| 0 <= k < exists@.len() ==> !exists@[k],
        },
{
    let mut i: usize = 0;
    while i < exists.len()
        invariant
            i <= exists@.len(),
            forall|k: int| 0 <= k < i ==> !exists@[k],
        decreases exists@.len() - i,
    {
        if exists[i] {
            return Some(i);
        }
        i = i + 1;
    }
    None
}

} // verus!
