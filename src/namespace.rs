use vstd::prelude::*;

verus! {

/// The pieces of a qualified type name between `::` separators, read left to right from
/// position `i`, the current piece having begun at `start`.
pub open spec fn split_from(s: Seq<char>, start: int, i: int) -> Seq<Seq<char>>
    decreases s.len() - i,
{
    if i + 1 >= s.len() {
        seq![s.subrange(start, s.len() as int)]
    } else if s[i] == ':' && s[i + 1] == ':' {
        seq![s.subrange(start, i)] + split_from(s, i + 2, i + 2)
    } else {
        split_from(s, start, i + 1)
    }
}

/// The namespace path under which scripts find a host type: its qualified name, split at `::`.
pub open spec fn segments(s: Seq<char>) -> Seq<Seq<char>> {
    split_from(s, 0, 0)
}

/// Splits a qualified type name into the namespace path that scripts see.
pub fn namespace_segments(path: &Vec<char>) -> (r: Vec<Vec<char>>)
    ensures
        r@.len() == segments(path@).len(),
        forall|k: int| 0 <= k < r@.len() ==> #[trigger] r@[k]@ == segments(path@)[k],
{
    let ghost s = path@;
    let mut out: Vec<Vec<char>> = Vec::new();
    let mut cur: Vec<char> = Vec::new();
    let mut start: usize = 0;
    let mut i: usize = 0;
    while path.len() - i > 1
        invariant
            s == path@,
            start <= i <= path.len(),
            cur@ == s.subrange(start as int, i as int),
            segments(s) == out@.map_values(|v: Vec<char>| v@) + split_from(
                s,
                start as int,
                i as int,
            ),
        decreases path.len() - i,
    {
        if path[i] == ':' && path[i + 1] == ':' {
            let ghost before = out@.map_values(|v: Vec<char>| v@);
            let piece = cur;
            out.push(piece);
            cur = Vec::new();
            i = i + 2;
            start = i;
            proof {
                assert(out@.map_values(|v: Vec<char>| v@) =~= before.push(piece@));
                assert(cur@ =~= s.subrange(start as int, i as int));
                assert(before.push(piece@) + split_from(s, start as int, i as int) =~= before + (
                seq![piece@] + split_from(s, start as int, i as int)));
            }
        } else {
            cur.push(path[i]);
            i = i + 1;
            proof {
                assert(cur@ =~= s.subrange(start as int, i as int));
            }
        }
    }
    proof {
        assert(split_from(s, start as int, i as int) == seq![s.subrange(start as int, s.len() as int)]);
    }
    while i < path.len()
        invariant
            s == path@,
            start <= i <= path.len(),
            cur@ == s.subrange(start as int, i as int),
            segments(s) == out@.map_values(|v: Vec<char>| v@) + seq![
                s.subrange(start as int, s.len() as int),
            ],
        decreases path.len() - i,
    {
        cur.push(path[i]);
        i = i + 1;
        proof {
            assert(cur@ =~= s.subrange(start as int, i as int));
        }
    }
    let ghost before = out@.map_values(|v: Vec<char>| v@);
    let piece = cur;
    out.push(piece);
    proof {
        assert(out@.map_values(|v: Vec<char>| v@) =~= before.push(piece@));
        assert(before.push(piece@) =~= before + seq![piece@]);
    }
    out
}

} // verus!
