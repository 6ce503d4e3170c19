//! Length scans over null-terminated character buffers.
//!
//! The intercepted native calls hand the payload raw character buffers that
//! end at the first NUL; the caller turns them into slices and these
//! functions find where the string ends.
use vstd::prelude::*;

verus! {

/// The length of the null-terminated wide string at the front of the
/// buffer: the index of its first NUL unit.
pub fn cwstrlen(pcwstr: &[u16]) -> (len: usize)
    requires
        exists|i: int| 0 <= i < pcwstr@.len() && pcwstr@[i] == 0,
    ensures
        len < pcwstr@.len(),
        pcwstr@[len as int] == 0,
        forall|j: int| 0 <= j < len ==> pcwstr@[j] != 0,
{
    let n = pcwstr.len();
    let mut len: usize = 0;
    loop
        invariant
            len <= n,
            n == pcwstr@.len(),
            exists|i: int| 0 <= i < pcwstr@.len() && pcwstr@[i] == 0,
            forall|j: int| 0 <= j < len ==> pcwstr@[j] != 0,
        ensures
            len < n,
            pcwstr@[len as int] == 0,
            forall|j: int| 0 <= j < len ==> pcwstr@[j] != 0,
        decreases n - len,
    {
        assert(len < n) by {
            let i = choose|i: int| 0 <= i < pcwstr@.len() && pcwstr@[i] == 0;
            assert(len <= i);
        }
        let wchar = *vstd::slice::slice_index_get(pcwstr, len);
        if wchar == 0 {
            break ;
        } else {
            len += 1;
        }
    }
    len
}

/// The length of the null-terminated narrow string at the front of the
/// buffer: the index of its first NUL byte.
pub fn cstrlen(pcstr: &[u8]) -> (len: usize)
    requires
        exists|i: int| 0 <= i < pcstr@.len() && pcstr@[i] == 0,
    ensures
        len < pcstr@.len(),
        pcstr@[len as int] == 0,
        forall|j: int| 0 <= j < len ==> pcstr@[j] != 0,
{
    let n = pcstr.len();
    let mut len: usize = 0;
    loop
        invariant
            len <= n,
            n == pcstr@.len(),
            exists|i: int| 0 <= i < pcstr@.len() && pcstr@[i] == 0,
            forall|j: int| 0 <= j < len ==> pcstr@[j] != 0,
        ensures
            len < n,
            pcstr@[len as int] == 0,
            forall|j: int| 0 <= j < len ==> pcstr@[j] != 0,
        decreases n - len,
    {
        assert(len < n) by {
            let i = choose|i: int| 0 <= i < pcstr@.len() && pcstr@[i] == 0;
            assert(len <= i);
        }
        let c = *vstd::slice::slice_index_get(pcstr, len);
        if c == 0 {
            break ;
        } else {
            len += 1;
        }
    }
    len
}

} // verus!
