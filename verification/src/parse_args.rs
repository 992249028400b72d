//! Command-line convention of a login shell: an optional `-c <command>`
//! names a non-interactive execution request, and every other argument is
//! passed through to the real shell unchanged.

use vstd::prelude::*;

verus! {

/// Split the process arguments into the optional `-c` command and the
/// passthrough arguments.
///
/// The first `-c` that is followed by another argument wins: the argument
/// after it is the command, and everything else (except the program name)
/// passes through in order.  Without such a `-c`, everything but the
/// program name passes through.
pub fn parse_args(all_args: Vec<String>) -> (r: (Option<String>, Vec<String>))
    requires
        all_args@.len() >= 1,
    ensures
        r.0 matches Some(cmd) ==> exists|i: int|
            {
                &&& 1 <= i
                &&& i + 1 < all_args@.len()
                &&& (#[trigger] all_args@[i])@ == "-c"@
                &&& (forall|j: int| 1 <= j < i ==> (#[trigger] all_args@[j])@ != "-c"@)
                &&& cmd == all_args@[i + 1]
                &&& r.1@ == all_args@.subrange(1, i) + all_args@.skip(i + 2)
            },
        r.0 is None ==> (forall|j: int|
            1 <= j && j + 1 < all_args@.len() ==> (#[trigger] all_args@[j])@ != "-c"@) && r.1@
            == all_args@.skip(1),
{
    let n = all_args.len();
    let needle = String::from_str("-c");
    let mut i: usize = 1;
    while i < n - 1
        invariant
            1 <= i <= n,
            n == all_args@.len(),
            needle@ == "-c"@,
            forall|j: int| 1 <= j < i ==> (#[trigger] all_args@[j])@ != "-c"@,
        decreases n - i,
    {
        if all_args[i] == needle {
            let cmd = all_args[i + 1].clone();
            let mut other: Vec<String> = Vec::new();
            let mut j: usize = 1;
            while j < i
                invariant
                    1 <= j <= i,
                    i + 1 < n == all_args@.len(),
                    other@ =~= all_args@.subrange(1, j as int),
                decreases i - j,
            {
                other.push(all_args[j].clone());
                proof {
                    assert(other@ =~= all_args@.subrange(1, j + 1));
                }
                j = j + 1;
            }
            let mut j2: usize = i + 2;
            while j2 < n
                invariant
                    i + 2 <= j2 <= n,
                    n == all_args@.len(),
                    other@ =~= all_args@.subrange(1, i as int) + all_args@.subrange(
                        i + 2,
                        j2 as int,
                    ),
                decreases n - j2,
            {
                other.push(all_args[j2].clone());
                proof {
                    assert(other@ =~= all_args@.subrange(1, i as int) + all_args@.subrange(
                        i + 2,
                        j2 + 1,
                    ));
                }
                j2 = j2 + 1;
            }
            proof {
                assert(all_args@.subrange(i + 2, n as int) =~= all_args@.skip(i + 2));
                assert(all_args@[i as int]@ == "-c"@);
            }
            return (Some(cmd), other);
        }
        i = i + 1;
    }
    let mut other: Vec<String> = Vec::new();
    let mut j: usize = 1;
    while j < n
        invariant
            1 <= j <= n || j == 1,
            n == all_args@.len(),
            other@ =~= all_args@.subrange(1, j as int),
        decreases n - j,
    {
        other.push(all_args[j].clone());
        proof {
            assert(other@ =~= all_args@.subrange(1, j + 1));
        }
        j = j + 1;
    }
    proof {
        if n >= 1 {
            assert(all_args@.subrange(1, n as int) =~= all_args@.skip(1));
        }
    }
    (None, other)
}

} // verus!
