//! The boundary of a being's stores: which flow through the link to the
//! paired being, which stay private, which are retired, and which are not
//! accounted for yet.

use vstd::prelude::*;
use crate::ir::group_views;
use crate::text::{chars_of, eq_str, sort_strings, sort_strs, strings_view, string_of};

verus! {

broadcast use group_views;

/// Stores that flow through the link to the paired being.
pub const LINKED_STORES: [&'static str; 70] = [
    "memory", "awareness", "census", "conversation", "working_memory", "reflection", "synapse",
    "signal", "signal_somatic", "focus", "concentration", "deliberation", "heartbeat",
    "subconscious", "domain_index", "arc", "consciousness", "discipline", "metabolic_rate",
    "musing", "conflict_monitor", "run_log", "inbox", "tick", "announcement", "attention",
    "claude_assist", "consolidation", "dream_interpretation", "dream_seed", "dream_signal",
    "encoding", "gate", "generosity", "gut", "HarmonyDomain", "intention", "interpretation",
    "lucid_dream", "lucid_monitor", "monitor", "musing_archive", "musing_mint", "nerve",
    "nursery", "perception", "persona", "proposal", "proprioception", "self_image",
    "self_model", "sensation", "session", "shared_dream_space", "signal_consolidation",
    "speech", "training_pair", "wake_mood", "witness", "bodhisattva_vow", "character",
    "creator_auth", "remains", "store", "heart", "breath", "circadian", "ultradian",
    "sleep_cycle", "wake_ritual",
];

/// A being's inner life, kept to itself.
pub const PRIVATE_STORES: [&'static str; 9] = [
    "mood", "feeling", "dream_state", "impulse", "craving", "daydream", "pulse", "spend",
    "circuit_breaker",
];

/// Known orphans no current writer targets, absorbed without a warning.
pub const RETIRED_STORES: [&'static str; 10] = [
    "item", "enforcer", "tools", "antibody_exemption_macrophage", "bluebook_first_macrophage",
    "calling_strategy", "domain_visualizer", "hello", "note", "dispatch",
];

/// `stem` is one of `list`.
pub open spec fn listed(stem: Seq<char>, list: Seq<&'static str>) -> bool {
    exists|i: int| 0 <= i < list.len() && list[i]@ == stem
}

fn listed_exec(stem: &Vec<char>, list: &[&'static str]) -> (r: bool)
    ensures
        r == listed(stem@, list@),
{
    let mut i: usize = 0;
    while i < list.len()
        invariant
            i <= list.len(),
            forall|k: int| 0 <= k < i ==> list@[k]@ != stem@,
        decreases list.len() - i,
    {
        if eq_str(stem, list[i]) {
            return true;
        }
        i = i + 1;
    }
    false
}

/// The boundary category of a store name: retired, private, linked, or
/// unknown (checked in that order).
pub open spec fn category(stem: Seq<char>) -> Seq<char> {
    if listed(stem, RETIRED_STORES@) {
        "retired"@
    } else if listed(stem, PRIVATE_STORES@) {
        "private"@
    } else if listed(stem, LINKED_STORES@) {
        "linked"@
    } else {
        "unknown"@
    }
}

/// Classifies a store stem by name against the boundary lists; `unknown`
/// is the genuinely unaccounted set.
pub fn classify_name(stem: &str) -> (r: &'static str)
    ensures
        r@ == category(stem@),
{
    let s = chars_of(stem);
    if listed_exec(&s, &RETIRED_STORES) {
        "retired"
    } else if listed_exec(&s, &PRIVATE_STORES) {
        "private"
    } else if listed_exec(&s, &LINKED_STORES) {
        "linked"
    } else {
        "unknown"
    }
}

/// Store stems by boundary.
#[derive(Debug, Clone)]
pub struct Classification {
    pub linked: Vec<String>,
    pub private_: Vec<String>,
    pub unclassified: Vec<String>,
}

impl Default for Classification {
    fn default() -> (r: Classification)
        ensures
            r.linked@.len() == 0 && r.private_@.len() == 0 && r.unclassified@.len() == 0,
    {
        Classification { linked: Vec::new(), private_: Vec::new(), unclassified: Vec::new() }
    }
}

/// The stems of one boundary, in listing order: hidden stems (a leading
/// `.`) and retired stores are left out.
pub open spec fn stems_in(stems: Seq<Seq<char>>, cat: Seq<char>) -> Seq<Seq<char>>
    decreases stems.len(),
{
    if stems.len() == 0 {
        Seq::empty()
    } else {
        let s = stems.last();
        stems_in(stems.drop_last(), cat) + if !(s.len() > 0 && s[0] == '.') && category(s) == cat {
            seq![s]
        } else {
            Seq::empty()
        }
    }
}

/// Sorts the `.heki` store stems of an information directory (in listing
/// order) into linked, private and unclassified, each sorted; hidden and
/// retired stores are absorbed silently.
pub fn classify_stems(stems: &Vec<String>) -> (r: Classification)
    ensures
        strings_view(r.linked@) == sort_strs(stems_in(strings_view(stems@), "linked"@)),
        strings_view(r.private_@) == sort_strs(stems_in(strings_view(stems@), "private"@)),
        strings_view(r.unclassified@) == sort_strs(stems_in(strings_view(stems@), "unknown"@)),
{
    proof {
        reveal_strlit("linked");
        reveal_strlit("private");
        reveal_strlit("unknown");
        reveal_strlit("retired");
    }
    let ghost sv = strings_view(stems@);
    let mut linked: Vec<String> = Vec::new();
    let mut private_: Vec<String> = Vec::new();
    let mut unclassified: Vec<String> = Vec::new();
    let mut i: usize = 0;
    assert(sv.take(0) =~= Seq::<Seq<char>>::empty());
    while i < stems.len()
        invariant
            i <= stems.len(),
            sv == strings_view(stems@),
            strings_view(linked@) == stems_in(sv.take(i as int), "linked"@),
            strings_view(private_@) == stems_in(sv.take(i as int), "private"@),
            strings_view(unclassified@) == stems_in(sv.take(i as int), "unknown"@),
        decreases stems.len() - i,
    {
        proof {
            reveal_strlit("linked");
            reveal_strlit("private");
            reveal_strlit("unknown");
            reveal_strlit("retired");
            assert("linked"@.len() == 6 && "private"@.len() == 7 && "unknown"@.len() == 7 && "retired"@.len() == 7);
            assert("private"@[0] != "unknown"@[0] && "private"@[0] != "retired"@[0] && "unknown"@[0] != "retired"@[0]);
        }
        let s = chars_of(stems[i].as_str());
        assert(sv.take(i + 1).drop_last() =~= sv.take(i as int));
        assert(sv.take(i + 1).last() == s@);
        let hidden = s.len() > 0 && s[0] == '.';
        if !hidden {
            let cat = classify_name(stems[i].as_str());
            let c = chars_of(cat);
            if eq_str(&c, "private") {
                let ghost b = strings_view(private_@);
                private_.push(string_of(&s));
                assert(strings_view(private_@) =~= b.push(s@));
            } else if eq_str(&c, "linked") {
                let ghost b = strings_view(linked@);
                linked.push(string_of(&s));
                assert(strings_view(linked@) =~= b.push(s@));
            } else if eq_str(&c, "unknown") {
                let ghost b = strings_view(unclassified@);
                unclassified.push(string_of(&s));
                assert(strings_view(unclassified@) =~= b.push(s@));
            }
        }
        i = i + 1;
    }
    assert(sv.take(stems.len() as int) =~= sv);
    Classification {
        linked: sort_strings(&linked),
        private_: sort_strings(&private_),
        unclassified: sort_strings(&unclassified),
    }
}

proof fn lemma_stems_in(stems: Seq<Seq<char>>, cat: Seq<char>, x: Seq<char>)
    requires
        stems_in(stems, cat).contains(x),
    ensures
        category(x) == cat,
        !(x.len() > 0 && x[0] == '.'),
    decreases stems.len(),
{
    if stems.len() > 0 {
        let rest = stems_in(stems.drop_last(), cat);
        let s = stems.last();
        let k = choose|k: int| 0 <= k < stems_in(stems, cat).len() && stems_in(stems, cat)[k] == x;
        if k < rest.len() {
            assert(stems_in(stems, cat)[k] == rest[k]);
            lemma_stems_in(stems.drop_last(), cat, x);
        } else {
            assert(x == s);
        }
    }
}

/// Each boundary list comes out sorted and holds exactly the stems of
/// its category; hidden stems and retired stores are in none of them.
pub proof fn law_boundaries(stems: Seq<Seq<char>>, cat: Seq<char>, x: Seq<char>)
    ensures
        crate::text::strs_sorted(sort_strs(stems_in(stems, cat))),
        sort_strs(stems_in(stems, cat)).to_multiset() == stems_in(stems, cat).to_multiset(),
        sort_strs(stems_in(stems, cat)).contains(x) ==> category(x) == cat && !(x.len() > 0 && x[0] == '.'),
        listed(x, RETIRED_STORES@) ==> category(x) == "retired"@,
{
    broadcast use vstd::seq_lib::to_multiset_contains;
    crate::text::law_sort_strs(stems_in(stems, cat));
    if sort_strs(stems_in(stems, cat)).contains(x) {
        assert(sort_strs(stems_in(stems, cat)).to_multiset().count(x) > 0);
        assert(stems_in(stems, cat).contains(x));
        lemma_stems_in(stems, cat, x);
    }
}

} // verus!
