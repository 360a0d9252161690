//! Detection of archive input by file extension, as the path's final
//! component shows it.

use vstd::prelude::*;
use vstd::string::StringSliceAdditionalSpecFns;
use vstd::string::StrSliceExecFns;

verus! {

/// A path with trailing separators removed, as path handling ignores them
/// when it takes the final component.
pub open spec fn trim_separators(path: Seq<u8>) -> Seq<u8>
    decreases path.len(),
{
    if path.len() > 0 && path.last() == 0x2f {
        trim_separators(path.drop_last())
    } else {
        path
    }
}

/// The bytes after the last separator: the path's final component, or the
/// whole path when it holds no separator.
pub open spec fn final_component(path: Seq<u8>) -> Seq<u8>
    decreases path.len(),
{
    if path.len() == 0 {
        path
    } else if path.last() == 0x2f {
        Seq::<u8>::empty()
    } else {
        final_component(path.drop_last()).push(path.last())
    }
}

/// The ASCII bytes of `.zip`.
pub open spec fn zip_suffix() -> Seq<u8> {
    seq![0x2eu8, 0x7au8, 0x69u8, 0x70u8]
}

/// A path names a zip archive when its final component ends in `.zip` with a
/// non-empty stem before the dot.
pub open spec fn spec_is_zip_file(path: Seq<u8>) -> bool {
    let name = final_component(trim_separators(path));
    name.len() > 4 && name.skip(name.len() - 4) == zip_suffix()
}

/// True exactly when the path's extension is `zip`.
pub fn is_zip_file(file: &str) -> (r: bool)
    ensures
        r == spec_is_zip_file(file.spec_bytes()),
{
    let bytes = file.as_bytes_vec();
    let ghost full = file.spec_bytes();
    let mut end = bytes.len();
    proof {
        assert(full.take(full.len() as int) =~= full);
    }
    while end > 0 && bytes[end - 1] == 0x2f
        invariant
            end <= full.len(),
            bytes@ == full,
            trim_separators(full) == trim_separators(full.take(end as int)),
        decreases end,
    {
        proof {
            assert(full.take(end as int).drop_last() =~= full.take(end - 1));
        }
        end = end - 1;
    }
    proof {
        assert(trim_separators(full) == full.take(end as int));
    }
    let ghost trimmed = full.take(end as int);
    let mut start = end;
    while start > 0 && bytes[start - 1] != 0x2f
        invariant
            start <= end <= full.len(),
            bytes@ == full,
            final_component(trimmed) == final_component(full.take(start as int)) + full.subrange(
                start as int,
                end as int,
            ),
            trimmed == full.take(end as int),
        decreases start,
    {
        proof {
            assert(full.take(start as int).drop_last() =~= full.take(start - 1));
            assert(final_component(full.take(start - 1)).push(full[start - 1]) + full.subrange(
                start as int,
                end as int,
            ) =~= final_component(full.take(start - 1)) + full.subrange(start - 1, end as int));
        }
        start = start - 1;
    }
    proof {
        if start == 0 {
            assert(full.take(0) =~= Seq::<u8>::empty());
            assert(final_component(Seq::<u8>::empty()) + full.subrange(0, end as int)
                =~= full.subrange(0, end as int));
        } else {
            assert(final_component(full.take(start as int)) =~= Seq::<u8>::empty());
            assert(Seq::<u8>::empty() + full.subrange(start as int, end as int) =~= full.subrange(
                start as int,
                end as int,
            ));
        }
        assert(final_component(trimmed) == full.subrange(start as int, end as int));
    }
    let ghost name = full.subrange(start as int, end as int);
    if end - start <= 4 {
        return false;
    }
    let r = bytes[end - 4] == 0x2e && bytes[end - 3] == 0x7a && bytes[end - 2] == 0x69 && bytes[end
        - 1] == 0x70;
    proof {
        let tail = name.skip(name.len() - 4);
        assert(tail.len() == 4);
        if r {
            assert(tail =~= zip_suffix());
        } else {
            assert(tail != zip_suffix()) by {
                if tail == zip_suffix() {
                    assert(full[end - 4] == tail[0]);
                    assert(full[end - 3] == tail[1]);
                    assert(full[end - 2] == tail[2]);
                    assert(full[end - 1] == tail[3]);
                }
            }
        }
    }
    r
}

} // verus!
