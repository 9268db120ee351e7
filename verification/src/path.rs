//! Paths as text, joined the way `std::path::PathBuf::push` joins them on
//! Unix.

use vstd::prelude::*;
use vstd::string::*;

verus! {

/// Whether `p` starts at the root.
pub open spec fn is_absolute(p: Seq<char>) -> bool {
    p.len() > 0 && p[0] == '/'
}

/// `base` extended by `part`: an absolute `part` replaces `base`; otherwise
/// `part` follows `base`, behind a separator unless `base` is empty or ends
/// with one.
pub open spec fn pushed(base: Seq<char>, part: Seq<char>) -> Seq<char> {
    if is_absolute(part) {
        part
    } else if base.len() == 0 || base.last() == '/' {
        base + part
    } else {
        base + seq!['/'] + part
    }
}

/// Whether `name` can only name an entry directly inside a directory: it is
/// not empty and holds no separator.
pub open spec fn is_entry_name(name: Seq<char>) -> bool {
    name.len() > 0 && forall|i: int| 0 <= i < name.len() ==> name[i] != '/'
}

/// Extends `base` by `part`.
pub fn join(base: &str, part: &str) -> (path: String)
    ensures
        path@ == pushed(base@, part@),
{
    let part_len: usize = part.unicode_len();
    if part_len > 0 && part.get_char(0) == '/' {
        return String::from_str(part);
    }
    let base_len: usize = base.unicode_len();
    let mut path = String::from_str(base);
    if base_len > 0 && base.get_char(base_len - 1) != '/' {
        proof {
            reveal_strlit("/");
        }
        path.append("/");
        assert("/"@ =~= seq!['/']);
    }
    path.append(part);
    path
}

/// Entry names are kept whole at the end of the path, so two names in one
/// directory give one path only if they are one name.
pub proof fn lemma_pushed_injective(base: Seq<char>, a: Seq<char>, b: Seq<char>)
    requires
        !is_absolute(a),
        !is_absolute(b),
        pushed(base, a) == pushed(base, b),
    ensures
        a == b,
{
    let pa = pushed(base, a);
    let pb = pushed(base, b);
    let k = pa.len() - a.len();
    assert(pa.len() == pb.len());
    assert(a =~= pa.subrange(k, pa.len() as int));
    assert(b =~= pb.subrange(k, pb.len() as int));
}

} // verus!
