//! Which embedded file a request for a path of the web panel gets.

use crate::data::bytes::{bytes_equal, starts_with, starts_with_at};
use vstd::prelude::*;

verus! {

/// How long a static asset may be cached, in seconds.
pub const ASSET_MAX_AGE_SECS: u64 = 86_400;

/// The page that every path of the panel itself is answered with.
pub open spec fn spec_index_page() -> Seq<u8> {
    seq![105u8, 110u8, 100u8, 101u8, 120u8, 46u8, 104u8, 116u8, 109u8, 108u8]
}

/// Whether a path means the panel itself: empty, `/`, `//`,
/// `/index.html`, `/setup`, `/setup/` or `/setup/index.html`.
pub open spec fn spec_is_panel_path(path: Seq<u8>) -> bool {
    ||| path == Seq::<u8>::empty()
    ||| path == seq![47u8]
    ||| path == seq![47u8, 47u8]
    ||| path == seq![47u8] + spec_index_page()
    ||| path == seq![47u8, 115u8, 101u8, 116u8, 117u8, 112u8]
    ||| path == seq![47u8, 115u8, 101u8, 116u8, 117u8, 112u8, 47u8]
    ||| path == seq![47u8, 115u8, 101u8, 116u8, 117u8, 112u8, 47u8] + spec_index_page()
}

/// The name of the embedded file for a path: the index page for the
/// panel itself, else the path without its leading slash.
pub open spec fn spec_asset_name(path: Seq<u8>) -> Seq<u8> {
    if spec_is_panel_path(path) {
        spec_index_page()
    } else if path.len() > 0 && path[0] == 47u8 {
        path.skip(1)
    } else {
        path
    }
}

/// The name of the embedded file that a request for `path` is answered
/// with.
pub fn asset_name(path: &[u8]) -> (name: Vec<u8>)
    ensures
        name@ == spec_asset_name(path@),
{
    let index: [u8; 10] = [105, 110, 100, 101, 120, 46, 104, 116, 109, 108];
    let setup: [u8; 6] = [47, 115, 101, 116, 117, 112];
    let slash: [u8; 1] = [47];
    assert(index@ =~= spec_index_page());
    let is_root = path.len() == 0 || bytes_equal(path, slash.as_slice()) || (path.len() == 2 && path[0]
        == 47 && path[1] == 47);
    let is_index = path.len() == 11 && path[0] == 47 && starts_with_at(path, 1, index.as_slice());
    let is_setup = bytes_equal(path, setup.as_slice()) || (path.len() == 7 && starts_with(
        path,
        setup.as_slice(),
    ) && path[6] == 47) || (path.len() == 17 && starts_with(path, setup.as_slice()) && path[6]
        == 47 && starts_with_at(path, 7, index.as_slice()));
    proof {
        let p = path@;
        assert(is_root == (p == Seq::<u8>::empty() || p == seq![47u8] || p == seq![47u8, 47u8])) by {
            if p.len() == 0 {
                assert(p =~= Seq::<u8>::empty());
            }
            if p.len() == 2 && p[0] == 47 && p[1] == 47 {
                assert(p =~= seq![47u8, 47u8]);
            }
            assert(slash@ =~= seq![47u8]);
        }
        assert(is_index == (p == seq![47u8] + spec_index_page())) by {
            if is_index {
                assert(p =~= seq![47u8] + spec_index_page());
            }
            if p == seq![47u8] + spec_index_page() {
                assert(p.subrange(1, 11) =~= spec_index_page());
            }
        }
        let setup_path = seq![47u8, 115u8, 101u8, 116u8, 117u8, 112u8];
        assert(setup@ =~= setup_path);
        assert(is_setup == (p == setup_path || p == seq![
            47u8,
            115u8,
            101u8,
            116u8,
            117u8,
            112u8,
            47u8,
        ] || p == seq![47u8, 115u8, 101u8, 116u8, 117u8, 112u8, 47u8] + spec_index_page())) by {
            let with_slash = seq![47u8, 115u8, 101u8, 116u8, 117u8, 112u8, 47u8];
            if p.len() == 7 && setup_path.is_prefix_of(p) && p[6] == 47 {
                assert(p.subrange(0, 6) == setup_path);
                assert forall|k: int| 0 <= k < 7 implies p[k] == with_slash[k] by {
                    if k < 6 {
                        assert(p.subrange(0, 6)[k] == p[k]);
                    }
                }
                assert(p =~= with_slash);
            }
            if p == with_slash {
                assert(p.subrange(0, 6) =~= setup_path);
            }
            if p.len() == 17 && setup_path.is_prefix_of(p) && p[6] == 47 && p.subrange(7, 17)
                == spec_index_page() {
                assert(p.subrange(0, 6) == setup_path);
                assert forall|k: int| 0 <= k < 17 implies p[k] == (with_slash + spec_index_page())[k] by {
                    if k < 6 {
                        assert(p.subrange(0, 6)[k] == p[k]);
                    } else if k >= 7 {
                        assert(p.subrange(7, 17)[k - 7] == p[k]);
                    }
                }
                assert(p =~= with_slash + spec_index_page());
            }
            if p == with_slash + spec_index_page() {
                assert(p.subrange(0, 6) =~= setup_path);
                assert(p.subrange(7, 17) =~= spec_index_page());
            }
        }
    }
    let mut name: Vec<u8> = Vec::new();
    if is_root || is_index || is_setup {
        let mut i: usize = 0;
        while i < 10
            invariant
                i <= 10,
                index@ == spec_index_page(),
                name@ == index@.subrange(0, i as int),
            decreases 10 - i,
        {
            name.push(index[i]);
            assert(name@ =~= index@.subrange(0, i + 1));
            i += 1;
        }
        assert(index@.subrange(0, 10) =~= index@);
    } else {
        let start: usize = if path.len() > 0 && path[0] == 47 {
            1
        } else {
            0
        };
        let mut i: usize = start;
        while i < path.len()
            invariant
                start <= i <= path.len(),
                name@ == path@.subrange(start as int, i as int),
            decreases path.len() - i,
        {
            name.push(path[i]);
            assert(name@ =~= path@.subrange(start as int, i + 1));
            i += 1;
        }
        assert(path@.subrange(0, path@.len() as int) =~= path@);
    }
    name
}

/// Whether the file for a path is a static asset, which clients may
/// cache for a day; anything else is sent with `no-cache`. Static assets
/// are the paths that begin with `/static` or `/assets`.
pub fn is_static_asset(path: &[u8]) -> (yes: bool)
    ensures
        yes == (seq![47u8, 115u8, 116u8, 97u8, 116u8, 105u8, 99u8].is_prefix_of(path@) || seq![
            47u8,
            97u8,
            115u8,
            115u8,
            101u8,
            116u8,
            115u8,
        ].is_prefix_of(path@)),
{
    let statics: [u8; 7] = [47, 115, 116, 97, 116, 105, 99];
    let assets: [u8; 7] = [47, 97, 115, 115, 101, 116, 115];
    assert(statics@ =~= seq![47u8, 115u8, 116u8, 97u8, 116u8, 105u8, 99u8]);
    assert(assets@ =~= seq![47u8, 97u8, 115u8, 115u8, 101u8, 116u8, 115u8]);
    starts_with(path, statics.as_slice()) || starts_with(path, assets.as_slice())
}

} // verus!
