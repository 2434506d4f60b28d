//! Which embedded web asset a request path names.
use vstd::prelude::*;
use vstd::utf8::encode_utf8;
use crate::codec::copy_range;

verus! {

/// `assets/`
pub open spec fn assets_prefix() -> Seq<u8> {
    seq![97u8, 115, 115, 101, 116, 115, 47]
}

/// `/app/`
pub open spec fn app_prefix() -> Seq<u8> {
    seq![47u8, 97, 112, 112, 47]
}

pub open spec fn starts_with(p: Seq<u8>, pre: Seq<u8>) -> bool {
    p.len() >= pre.len() && p.subrange(0, pre.len() as int) == pre
}

/// `p` with every leading `/app/` taken off.
pub open spec fn trim_app(p: Seq<u8>) -> Seq<u8>
    decreases p.len(),
{
    if starts_with(p, app_prefix()) {
        trim_app(p.subrange(5, p.len() as int))
    } else {
        p
    }
}

/// The asset that request path `p` names: a path under `assets/` as it is,
/// any other with every leading `/app/` taken off.
pub open spec fn asset_path_of(p: Seq<u8>) -> Seq<u8> {
    if starts_with(p, assets_prefix()) {
        p
    } else {
        trim_app(p)
    }
}

fn starts_with_at(p: &[u8], at: usize, pre: &[u8]) -> (r: bool)
    requires
        at <= p.len(),
    ensures
        r == starts_with(p@.subrange(at as int, p.len() as int), pre@),
{
    let ghost q = p@.subrange(at as int, p.len() as int);
    if p.len() - at < pre.len() {
        return false;
    }
    let mut i: usize = 0;
    while i < pre.len()
        invariant
            i <= pre.len(),
            at + pre.len() <= p.len(),
            q == p@.subrange(at as int, p.len() as int),
            forall|j: int| 0 <= j < i ==> q[j] == pre@[j],
        decreases pre.len() - i,
    {
        if p[at + i] != pre[i] {
            proof {
                assert(q.subrange(0, pre.len() as int)[i as int] != pre@[i as int]);
            }
            return false;
        }
        i = i + 1;
    }
    assert(q.subrange(0, pre.len() as int) =~= pre@);
    true
}

/// The embedded asset that the request path `path` names.
pub fn asset_path(path: &str) -> (r: Vec<u8>)
    ensures
        r@ == asset_path_of(encode_utf8(path@)),
{
    let p = path.as_bytes();
    let assets: [u8; 7] = [97u8, 115, 115, 101, 116, 115, 47];
    let app: [u8; 5] = [47u8, 97, 112, 112, 47];
    assert(assets@ =~= assets_prefix());
    assert(app@ =~= app_prefix());
    assert(p@.subrange(0, p.len() as int) =~= p@);
    if starts_with_at(p, 0, assets.as_slice()) {
        return copy_range(p, 0, p.len());
    }
    let mut at: usize = 0;
    while starts_with_at(p, at, app.as_slice())
        invariant
            at <= p.len(),
            app@ == app_prefix(),
            trim_app(p@.subrange(at as int, p.len() as int)) == trim_app(p@),
        decreases p.len() - at,
    {
        proof {
            let q = p@.subrange(at as int, p.len() as int);
            assert(q.subrange(5, q.len() as int) =~= p@.subrange(at + 5, p.len() as int));
        }
        at = at + 5;
    }
    copy_range(p, at, p.len())
}

} // verus!
