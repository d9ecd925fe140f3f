//! The flags of `storehouse actors`: `--json` and `--fixture` anywhere,
//! everything else positional.

use vstd::prelude::*;
use crate::text::{chars_of, eq_str, string_of, strings_view};

verus! {

/// The arguments that are neither `--json` nor `--fixture`, in order.
pub open spec fn positional(args: Seq<Seq<char>>) -> Seq<Seq<char>>
    decreases args.len(),
{
    if args.len() == 0 {
        Seq::empty()
    } else if args.last() == "--json"@ || args.last() == "--fixture"@ {
        positional(args.drop_last())
    } else {
        positional(args.drop_last()).push(args.last())
    }
}

/// Splits the arguments after the verb into the positional ones and the
/// `--json` and `--fixture` switches.
pub fn parse_flags(rest: &Vec<String>) -> (r: (Vec<String>, bool, bool))
    ensures
        strings_view(r.0@) == positional(strings_view(rest@)),
        r.1 <==> strings_view(rest@).contains("--json"@),
        r.2 <==> strings_view(rest@).contains("--fixture"@),
{
    let ghost av = strings_view(rest@);
    let mut pos: Vec<String> = Vec::new();
    let mut json = false;
    let mut fixture = false;
    let mut i: usize = 0;
    proof {
        reveal_strlit("--json");
        reveal_strlit("--fixture");
        assert("--json"@.len() != "--fixture"@.len());
    }
    while i < rest.len()
        invariant
            i <= rest.len(),
            av == strings_view(rest@),
            av.len() == rest@.len(),
            strings_view(pos@) == positional(av.take(i as int)),
            json <==> av.take(i as int).contains("--json"@),
            fixture <==> av.take(i as int).contains("--fixture"@),
            "--json"@ != "--fixture"@,
        decreases rest.len() - i,
    {
        let a = chars_of(rest[i].as_str());
        assert(av[i as int] == a@);
        let ghost pre = av.take(i as int);
        assert(av.take(i + 1) =~= pre.push(a@));
        assert(av.take(i + 1).drop_last() =~= pre);
        if eq_str(&a, "--json") {
            json = true;
            assert(av.take(i + 1)[i as int] == a@);
        } else if eq_str(&a, "--fixture") {
            fixture = true;
            assert(av.take(i + 1)[i as int] == a@);
        } else {
            let ghost before = pos@;
            pos.push(string_of(&a));
            assert(strings_view(pos@) =~= strings_view(before).push(a@));
        }
        proof {
            if pre.contains("--json"@) {
                let k = choose|k: int| 0 <= k < pre.len() && #[trigger] pre[k] == "--json"@;
                assert(av.take(i + 1)[k] == pre[k]);
            }
            if pre.contains("--fixture"@) {
                let k = choose|k: int| 0 <= k < pre.len() && #[trigger] pre[k] == "--fixture"@;
                assert(av.take(i + 1)[k] == pre[k]);
            }
            let next = av.take(i + 1);
            if next.contains("--json"@) && a@ != "--json"@ {
                let k = choose|k: int| 0 <= k < next.len() && #[trigger] next[k] == "--json"@;
                assert(pre[k] == next[k]);
            }
            if next.contains("--fixture"@) && a@ != "--fixture"@ {
                let k = choose|k: int| 0 <= k < next.len() && #[trigger] next[k] == "--fixture"@;
                assert(pre[k] == next[k]);
            }
        }
        i = i + 1;
    }
    assert(av.take(rest.len() as int) =~= av);
    (pos, json, fixture)
}

} // verus!
