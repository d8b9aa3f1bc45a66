use vstd::prelude::*;
use vstd::string::*;
use crate::strmap::StrMap;
use crate::order::{lemma_insert_sorted, lemma_ranked_total_ordering, ranked_leq, ranked_lt};
use vstd::relations::sorted_by;
use vstd::seq_lib::lemma_sorted_unique;
use crate::types::{find_last_entry, last_entry, HaEntityRegistryEntry, HaState};
use crate::text::{
    chars_lt, clone_strings, first_strings, opt_view, str_starts_with, strings_view, chars_of, chars_skip, has_prefix, has_prefix_exec, is_last_occurrence, last_occurrence,
    lemma_last_occurrence_unique, occurs_at, parse_u32, parse_u32_spec, str_eq,
};
use crate::text::{all_digits, decimal_value, is_digit};

verus! {

/// The marker that Home Assistant puts before the index of a WLED segment
/// entity.
pub open spec fn segment_marker() -> Seq<char> {
    "_segment_"@
}

/// The segment index of an entity id: the text after the last
/// `_segment_`, read as a `u32`.
pub open spec fn spec_parse_segment_index(entity_id: Seq<char>) -> Option<u32> {
    if exists|i: int| is_last_occurrence(entity_id, segment_marker(), i) {
        let i = choose|i: int| is_last_occurrence(entity_id, segment_marker(), i);
        parse_u32_spec(entity_id.skip(i + segment_marker().len()))
    } else {
        None
    }
}

/// The index of a WLED segment entity (`light.strip_segment_2` gives 2).
pub fn parse_segment_index(entity_id: &str) -> (r: Option<u32>)
    ensures
        r == spec_parse_segment_index(entity_id@),
{
    let s = chars_of(entity_id);
    let pat = chars_of("_segment_");
    let plen = pat.len();
    match last_occurrence(&s, &pat) {
        Some(i) => {
            proof {
                assert forall|j: int| is_last_occurrence(s@, pat@, j) implies j == i by {
                    lemma_last_occurrence_unique(s@, pat@, i as int, j);
                }
            }
            assert(occurs_at(s@, pat@, i as int));
            assert(i + plen <= s.len());
            let tail = chars_skip(&s, i + plen);
            parse_u32(&tail)
        },
        None => {
            assert(forall|j: int| !is_last_occurrence(s@, pat@, j));
            None
        },
    }
}

/// After the marker that ends at position `b + 9`, only digits follow, so
/// the marker occurs nowhere after `b`.
proof fn lemma_no_marker_after(base: Seq<char>, digits: Seq<char>, j: int)
    requires
        digits.len() > 0,
        all_digits(digits),
        base.len() < j,
    ensures
        !occurs_at(base + segment_marker() + digits, segment_marker(), j),
{
    reveal_strlit("_segment_");
    let pat = segment_marker();
    let s = base + pat + digits;
    let b = base.len() as int;
    assert(pat.len() == 9);
    assert(pat[0] == '_' && pat[1] == 's' && pat[2] == 'e' && pat[3] == 'g' && pat[4] == 'm');
    assert(pat[5] == 'e' && pat[6] == 'n' && pat[7] == 't' && pat[8] == '_');
    if occurs_at(s, pat, j) {
        let w = s.subrange(j, j + 9);
        assert(w[0] == s[j]);
        assert(w[1] == s[j + 1]);
        assert(s[j] == '_');
        assert(s[j + 1] == 's');
        if j < b + 8 {
            assert(s[j] == pat[j - b]);
        } else if j == b + 8 {
            assert(s[j + 1] == digits[0]);
            assert(is_digit(digits[0]));
        } else {
            assert(s[j] == digits[j - b - 9]);
            assert(is_digit(digits[j - b - 9]));
        }
    }
}

/// An entity named `<base>_segment_<digits>` has the segment index that
/// the digits spell, whatever the base (when the value fits in a `u32`).
pub proof fn lemma_segment_index_of_segment_name(base: Seq<char>, digits: Seq<char>)
    requires
        digits.len() > 0,
        all_digits(digits),
        decimal_value(digits) <= u32::MAX,
    ensures
        spec_parse_segment_index(base + segment_marker() + digits) == Some(
            decimal_value(digits) as u32,
        ),
{
    let pat = segment_marker();
    let s = base + pat + digits;
    let b = base.len() as int;
    assert(s.subrange(b, b + pat.len()) =~= pat);
    assert forall|j: int| b < j implies !occurs_at(s, pat, j) by {
        lemma_no_marker_after(base, digits, j);
    }
    assert(is_last_occurrence(s, pat, b));
    assert forall|i: int| is_last_occurrence(s, pat, i) implies i == b by {
        lemma_last_occurrence_unique(s, pat, i, b);
    }
    assert(s.skip(b + pat.len()) =~= digits);
    assert(is_digit(digits[0]));
}

/// The suffix shared by a WLED light and its sensors: `light.wled` gives
/// the empty suffix, `light.wled_x` gives `_x`, anything else none.
pub open spec fn spec_parse_wled_suffix(entity_id: Seq<char>) -> Option<Seq<char>> {
    if has_prefix(entity_id, "light."@) {
        let rest = entity_id.skip("light."@.len() as int);
        if rest == "wled"@ {
            Some(Seq::<char>::empty())
        } else if has_prefix(rest, "wled_"@) {
            Some("_"@ + rest.skip("wled_"@.len() as int))
        } else {
            None
        }
    } else {
        None
    }
}

/// `light.wled_<name>` shares the suffix `_<name>` with its sensors, and
/// `light.wled` the empty suffix.
pub proof fn lemma_wled_suffix_of_named_light(name: Seq<char>)
    ensures
        spec_parse_wled_suffix("light.wled_"@ + name) == Some("_"@ + name),
        spec_parse_wled_suffix("light.wled"@) == Some(Seq::<char>::empty()),
{
    reveal_strlit("light.wled_");
    reveal_strlit("light.wled");
    reveal_strlit("light.");
    reveal_strlit("wled");
    reveal_strlit("wled_");
    reveal_strlit("_");
    let s = "light.wled_"@ + name;
    assert(s.subrange(0, 6) =~= "light."@);
    let rest = s.skip(6);
    assert(rest =~= "wled_"@ + name);
    assert(rest.len() != "wled"@.len());
    assert(rest.subrange(0, 5) =~= "wled_"@);
    assert(rest.skip(5) =~= name);
    assert("light.wled"@.subrange(0, 6) =~= "light."@);
    assert("light.wled"@.skip(6) =~= "wled"@);
}

/// The sensor suffix of a WLED light entity.
pub fn parse_wled_suffix(entity_id: &str) -> (r: Option<String>)
    ensures
        r matches Some(s) ==> spec_parse_wled_suffix(entity_id@) == Some(s@),
        r is None ==> spec_parse_wled_suffix(entity_id@) is None,
{
    let s = chars_of(entity_id);
    let light = chars_of("light.");
    if !has_prefix_exec(&s, &light) {
        return None;
    }
    let rest = entity_id.substring_char(light.len(), s.len());
    assert(rest@ =~= entity_id@.skip("light."@.len() as int));
    if str_eq(rest, "wled") {
        let e = String::new();
        assert(e@ =~= Seq::<char>::empty());
        return Some(e);
    }
    let rest_chars = chars_of(rest);
    let wled_ = chars_of("wled_");
    if !has_prefix_exec(&rest_chars, &wled_) {
        return None;
    }
    let tail = rest.substring_char(wled_.len(), rest_chars.len());
    let r = String::from_str("_").concat(tail);
    assert(tail@ =~= rest@.skip("wled_"@.len() as int));
    Some(r)
}


/// The device of a light that looks like a WLED strip: the entity is a
/// `light.`, its registry row (a later row replacing an earlier one) names a
/// device, and the state looks WLED-like.
pub open spec fn wled_device_of(st: HaState, reg: Seq<HaEntityRegistryEntry>) -> Option<Seq<char>> {
    if has_prefix(st.entity_id@, "light."@) {
        match last_entry(reg, st.entity_id@) {
            Some(e) => match e.device_id {
                Some(d) => if st.attributes.spec_is_wled_like(st.entity_id@, opt_view(e.platform)) {
                    Some(d@)
                } else {
                    None
                },
                None => None,
            },
            None => None,
        }
    } else {
        None
    }
}

/// The entity ids of the WLED-like lights of device `d`, in state order.
pub open spec fn device_group(states: Seq<HaState>, reg: Seq<HaEntityRegistryEntry>, d: Seq<char>) -> Seq<
    Seq<char>,
>
    decreases states.len(),
{
    if states.len() == 0 {
        Seq::empty()
    } else {
        let g = device_group(states.drop_last(), reg, d);
        if wled_device_of(states.last(), reg) == Some(d) {
            g.push(states.last().entity_id@)
        } else {
            g
        }
    }
}

/// The device that the registry assigns to entity `e`.
pub open spec fn entity_device(reg: Seq<HaEntityRegistryEntry>, e: Seq<char>) -> Option<Seq<char>> {
    match last_entry(reg, e) {
        Some(x) => opt_view(x.device_id),
        None => None,
    }
}

/// An entity belongs to the group of its own device only.
pub proof fn lemma_group_member_device(
    states: Seq<HaState>,
    reg: Seq<HaEntityRegistryEntry>,
    d: Seq<char>,
    e: Seq<char>,
)
    requires
        device_group(states, reg, d).contains(e),
    ensures
        entity_device(reg, e) == Some(d),
    decreases states.len(),
{
    let g = device_group(states.drop_last(), reg, d);
    if wled_device_of(states.last(), reg) == Some(d) && e == states.last().entity_id@ {
    } else {
        if wled_device_of(states.last(), reg) == Some(d) {
            let i = choose|i: int| 0 <= i < g.push(states.last().entity_id@).len() && g.push(
                states.last().entity_id@,
            )[i] == e;
            assert(g[i] == e);
        }
        lemma_group_member_device(states.drop_last(), reg, d, e);
    }
}

/// The WLED device of `st`, as `wled_device_of` gives it.
pub fn wled_device(st: &HaState, reg: &[HaEntityRegistryEntry]) -> (r: Option<String>)
    ensures
        opt_view(r) == wled_device_of(*st, reg@),
{
    if !str_starts_with(st.entity_id.as_str(), "light.") {
        return None;
    }
    match find_last_entry(reg, st.entity_id.as_str()) {
        Some(i) => {
            let e = &reg[i];
            match &e.device_id {
                Some(d) => {
                    let platform = match &e.platform {
                        Some(p) => Some(p.as_str()),
                        None => None,
                    };
                    if st.attributes.is_wled_like(st.entity_id.as_str(), platform) {
                        Some(d.clone())
                    } else {
                        None
                    }
                },
                None => None,
            }
        },
        None => None,
    }
}

/// The WLED-like lights grouped by device, as the map from device id to
/// entity ids that both WLED computations start from.
pub fn group_wled_lights_by_device(states: &[HaState], reg: &[HaEntityRegistryEntry]) -> (m: StrMap<
    Vec<String>,
>)
    ensures
        m.wf(),
        forall|d: Seq<char>| #[trigger]
            m@.dom().contains(d) <==> device_group(states@, reg@, d).len() > 0,
        forall|d: Seq<char>| #[trigger]
            m@.dom().contains(d) ==> strings_view(m@[d]@) == device_group(states@, reg@, d),
{
    let mut m: StrMap<Vec<String>> = StrMap::new();
    let mut i: usize = 0;
    while i < states.len()
        invariant
            i <= states@.len(),
            m.wf(),
            forall|d: Seq<char>| #[trigger]
                m@.dom().contains(d) <==> device_group(states@.take(i as int), reg@, d).len() > 0,
            forall|d: Seq<char>| #[trigger]
                m@.dom().contains(d) ==> strings_view(m@[d]@) == device_group(
                    states@.take(i as int),
                    reg@,
                    d,
                ),
        decreases states.len() - i,
    {
        let st = &states[i];
        let ghost pre = states@.take(i as int);
        let ghost post = states@.take(i + 1);
        assert(post.drop_last() =~= pre);
        assert(post.last() == states@[i as int]);
        match wled_device(st, reg) {
            Some(d) => {
                let ghost dv = d@;
                let ghost old_m = m@;
                let mut group = match m.get(d.as_str()) {
                    Some(g) => clone_strings(g),
                    None => Vec::new(),
                };
                assert(strings_view(group@) == device_group(pre, reg@, dv)) by {
                    if !old_m.dom().contains(dv) {
                        assert(strings_view(group@) =~= Seq::<Seq<char>>::empty());
                    }
                }
                group.push(st.entity_id.clone());
                assert(strings_view(group@) =~= device_group(post, reg@, dv));
                m.insert(d, group);
                assert forall|d2: Seq<char>| #[trigger]
                    m@.dom().contains(d2) <==> device_group(post, reg@, d2).len() > 0 by {
                    if d2 != dv {
                        assert(device_group(post, reg@, d2) == device_group(pre, reg@, d2));
                    }
                }
                assert forall|d2: Seq<char>| #[trigger] m@.dom().contains(d2) implies strings_view(
                    m@[d2]@,
                ) == device_group(post, reg@, d2) by {
                    if d2 != dv {
                        assert(device_group(post, reg@, d2) == device_group(pre, reg@, d2));
                    }
                }
            },
            None => {
                assert forall|d2: Seq<char>| #[trigger]
                    device_group(post, reg@, d2) == device_group(pre, reg@, d2) by {}
            },
        }
        i += 1;
    }
    assert(states@.take(states@.len() as int) =~= states@);
    m
}


/// How segment entities are ordered: entities without a segment index
/// first, then by segment index, then by entity id.
pub open spec fn segment_rank(a: Seq<char>) -> (int, int, int) {
    match spec_parse_segment_index(a) {
        Some(n) => (1, n as int, 0),
        None => (0, 0, 0),
    }
}

pub open spec fn segment_rank_fn() -> spec_fn(Seq<char>) -> (int, int, int) {
    |a: Seq<char>| segment_rank(a)
}

/// The order in which the entities of one WLED device are listed.
pub open spec fn segment_leq() -> spec_fn(Seq<char>, Seq<char>) -> bool {
    ranked_leq(segment_rank_fn())
}

/// Whether `a` comes strictly before `b` in segment order.
pub fn segment_lt(a: &String, b: &String) -> (r: bool)
    ensures
        r == ranked_lt(segment_rank_fn(), a@, b@),
{
    let (a1, a2): (u32, u32) = match parse_segment_index(a.as_str()) {
        Some(n) => (1, n),
        None => (0, 0),
    };
    let (b1, b2): (u32, u32) = match parse_segment_index(b.as_str()) {
        Some(n) => (1, n),
        None => (0, 0),
    };
    if a1 != b1 {
        return a1 < b1;
    }
    if a2 != b2 {
        return a2 < b2;
    }
    let ca = chars_of(a.as_str());
    let cb = chars_of(b.as_str());
    chars_lt(&ca, &cb)
}

/// The entity ids sorted in segment order.
pub fn sort_by_segment(v: &Vec<String>) -> (r: Vec<String>)
    ensures
        strings_view(r@) == strings_view(v@).sort_by(segment_leq()),
{
    let ghost rank = segment_rank_fn();
    let mut r: Vec<String> = Vec::new();
    let mut i: usize = 0;
    proof {
        assert(strings_view(r@) =~= strings_view(v@.take(0)));
    }
    while i < v.len()
        invariant
            i <= v.len(),
            rank == segment_rank_fn(),
            sorted_by(strings_view(r@), ranked_leq(rank)),
            strings_view(r@).to_multiset() == strings_view(v@.take(i as int)).to_multiset(),
        decreases v.len() - i,
    {
        let x = &v[i];
        let mut p: usize = 0;
        loop
            invariant
                p <= r.len(),
                forall|k: int| 0 <= k < p ==> !ranked_lt(rank, x@, #[trigger] strings_view(r@)[k]),
                rank == segment_rank_fn(),
            ensures
                p <= r.len(),
                forall|k: int| 0 <= k < p ==> !ranked_lt(rank, x@, #[trigger] strings_view(r@)[k]),
                p < r.len() ==> ranked_lt(rank, x@, strings_view(r@)[p as int]),
            decreases r.len() - p,
        {
            if p == r.len() {
                break;
            }
            if segment_lt(x, &r[p]) {
                break;
            }
            p += 1;
        }
        let ghost before = strings_view(r@);
        proof {
            lemma_insert_sorted(rank, before, p as int, x@);
        }
        r.insert(p, x.clone());
        proof {
            assert(strings_view(r@) =~= before.insert(p as int, x@));
            vstd::seq_lib::to_multiset_insert(before, p as int, x@);
            let vt = strings_view(v@.take(i as int));
            assert(strings_view(v@.take(i + 1)) =~= vt.insert(vt.len() as int, x@));
            vstd::seq_lib::to_multiset_insert(vt, vt.len() as int, x@);
        }
        i += 1;
    }
    proof {
        assert(v@.take(v@.len() as int) =~= v@);
        lemma_ranked_total_ordering(rank);
        strings_view(v@).lemma_sort_by_ensures(ranked_leq(rank));
        lemma_sorted_unique(strings_view(r@), strings_view(v@).sort_by(ranked_leq(rank)), ranked_leq(rank));
    }
    r
}


/// The lights that drive a WLED device's gradient: its first three lights
/// in segment order (all of them when it has fewer).
pub open spec fn spec_segment_targets(group: Seq<Seq<char>>) -> Seq<Seq<char>> {
    let sorted = group.sort_by(segment_leq());
    if sorted.len() <= 3 {
        sorted
    } else {
        sorted.take(3)
    }
}

/// `m` maps every WLED-like light to the lights that drive its device's
/// gradient, and nothing else.
pub open spec fn is_segment_targets_for(
    m: StrMap<Vec<String>>,
    states: Seq<HaState>,
    reg: Seq<HaEntityRegistryEntry>,
) -> bool {
    &&& m.wf()
    &&& forall|e: Seq<char>| #[trigger]
        m@.dom().contains(e) <==> exists|d: Seq<char>| device_group(states, reg, d).contains(e)
    &&& forall|d: Seq<char>, e: Seq<char>| #[trigger]
        device_group(states, reg, d).contains(e) ==> strings_view(m@[e]@) == spec_segment_targets(
            device_group(states, reg, d),
        )
}

/// Some device among the first `j` of `keys` has `e` in its group.
pub open spec fn in_groups_before(
    states: Seq<HaState>,
    reg: Seq<HaEntityRegistryEntry>,
    keys: Seq<Seq<char>>,
    j: int,
    e: Seq<char>,
) -> bool {
    exists|k: int| 0 <= k < j && #[trigger] device_group(states, reg, keys[k]).contains(e)
}

/// For every WLED-like light, the lights that drive its device's gradient.
pub fn compute_wled_segment_targets(
    states: &[HaState],
    entity_registry: &[HaEntityRegistryEntry],
) -> (m: StrMap<Vec<String>>)
    ensures
        is_segment_targets_for(m, states@, entity_registry@),
{
    let ghost st = states@;
    let ghost reg = entity_registry@;
    let by_device = group_wled_lights_by_device(states, entity_registry);
    let ghost keys = by_device.key_list();
    proof {
        by_device.lemma_lists();
        assert forall|k: int| 0 <= k < keys.len() implies strings_view(
            #[trigger] by_device.value_list()[k]@,
        ) == device_group(st, reg, keys[k]) by {
            assert(keys.contains(keys[k]));
            assert(by_device@.dom().contains(keys[k]));
            assert(by_device@[keys[k]] == by_device.value_list()[k]);
        }
        assert forall|d: Seq<char>| device_group(st, reg, d).len() > 0 implies #[trigger] keys.contains(
            d,
        ) by {
            assert(by_device@.dom().contains(d));
        }
    }
    let mut m: StrMap<Vec<String>> = StrMap::new();
    let mut j: usize = 0;
    while j < by_device.len()
        invariant
            j <= keys.len(),
            keys == by_device.key_list(),
            by_device.wf(),
            keys.no_duplicates(),
            forall|k: int|
                0 <= k < keys.len() ==> strings_view(#[trigger] by_device.value_list()[k]@)
                    == device_group(st, reg, keys[k]),
            forall|d: Seq<char>| device_group(st, reg, d).len() > 0 ==> #[trigger] keys.contains(d),
            m.wf(),
            forall|e: Seq<char>| #[trigger]
                m@.dom().contains(e) <==> in_groups_before(st, reg, keys, j as int, e),
            forall|k: int, e: Seq<char>|
                0 <= k < j && #[trigger] device_group(st, reg, keys[k]).contains(e) ==> strings_view(
                    m@[e]@,
                ) == spec_segment_targets(device_group(st, reg, keys[k])),
        decreases keys.len() - j,
    {
        let entities = by_device.value_at(j);
        let ghost group = device_group(st, reg, keys[j as int]);
        assert(strings_view(entities@) == group);
        let sorted = sort_by_segment(entities);
        let top = first_strings(&sorted, 3);
        assert(strings_view(top@) == spec_segment_targets(group));
        let mut t: usize = 0;
        while t < entities.len()
            invariant
                j < keys.len(),
                t <= entities.len(),
                strings_view(entities@) == group,
                group == device_group(st, reg, keys[j as int]),
                strings_view(top@) == spec_segment_targets(group),
                keys.no_duplicates(),
                m.wf(),
                forall|e: Seq<char>| #[trigger]
                    m@.dom().contains(e) <==> (in_groups_before(st, reg, keys, j as int, e) || exists|
                        u: int,
                    | 0 <= u < t && group[u] == e),
                forall|k: int, e: Seq<char>|
                    0 <= k < j && #[trigger] device_group(st, reg, keys[k]).contains(e)
                        ==> strings_view(m@[e]@) == spec_segment_targets(device_group(st, reg, keys[k])),
                forall|u: int| 0 <= u < t ==> strings_view(#[trigger] m@[group[u]]@) == spec_segment_targets(group),
            decreases entities.len() - t,
        {
            let e = entities[t].clone();
            let ghost ev = e@;
            assert(ev == group[t as int]);
            let targets = clone_strings(&top);
            m.insert(e, targets);
            proof {
                assert(group.contains(ev));
                assert forall|k: int, e2: Seq<char>|
                    0 <= k < j && #[trigger] device_group(st, reg, keys[k]).contains(e2)
                    implies strings_view(m@[e2]@) == spec_segment_targets(device_group(st, reg, keys[k])) by {
                    if e2 == ev {
                        lemma_group_member_device(st, reg, keys[k], e2);
                        lemma_group_member_device(st, reg, keys[j as int], e2);
                    }
                }
                assert forall|e2: Seq<char>| #[trigger]
                    m@.dom().contains(e2) <==> (in_groups_before(st, reg, keys, j as int, e2) || exists|
                        u: int,
                    | 0 <= u < t + 1 && group[u] == e2) by {
                    if e2 == ev {
                        assert(group[t as int] == e2);
                    }
                }
            }
            t += 1;
        }
        proof {
            assert forall|e: Seq<char>| #[trigger]
                m@.dom().contains(e) <==> in_groups_before(st, reg, keys, j + 1, e) by {
                if m@.dom().contains(e) && !in_groups_before(st, reg, keys, j as int, e) {
                    let u = choose|u: int| 0 <= u < t && group[u] == e;
                    assert(device_group(st, reg, keys[j as int]).contains(e));
                }
                if in_groups_before(st, reg, keys, j + 1, e) && !in_groups_before(st, reg, keys, j as int, e) {
                    let k = choose|k: int| 0 <= k < j + 1 && #[trigger] device_group(st, reg, keys[k]).contains(e);
                    assert(k == j);
                    let u = choose|u: int| 0 <= u < group.len() && group[u] == e;
                    assert(0 <= u < t && group[u] == e);
                }
            }
            assert forall|k: int, e: Seq<char>|
                0 <= k < j + 1 && #[trigger] device_group(st, reg, keys[k]).contains(e)
                implies strings_view(m@[e]@) == spec_segment_targets(device_group(st, reg, keys[k])) by {
                if k == j {
                    let u = choose|u: int| 0 <= u < group.len() && group[u] == e;
                    assert(strings_view(m@[group[u]]@) == spec_segment_targets(group));
                }
            }
        }
        j += 1;
    }
    proof {
        assert forall|e: Seq<char>| #[trigger]
            m@.dom().contains(e) <==> exists|d: Seq<char>| device_group(st, reg, d).contains(e) by {
            if m@.dom().contains(e) {
                let k = choose|k: int| 0 <= k < keys.len() && #[trigger] device_group(st, reg, keys[k]).contains(e);
                assert(device_group(st, reg, keys[k]).contains(e));
            }
            if exists|d: Seq<char>| device_group(st, reg, d).contains(e) {
                let d = choose|d: Seq<char>| device_group(st, reg, d).contains(e);
                assert(device_group(st, reg, d).len() > 0);
                assert(keys.contains(d));
                let k = choose|k: int| 0 <= k < keys.len() && keys[k] == d;
                assert(device_group(st, reg, keys[k]).contains(e));
            }
        }
        assert forall|d: Seq<char>, e: Seq<char>| #[trigger]
            device_group(st, reg, d).contains(e) implies strings_view(m@[e]@)
                == spec_segment_targets(device_group(st, reg, d)) by {
            assert(device_group(st, reg, d).len() > 0);
            assert(keys.contains(d));
            let k = choose|k: int| 0 <= k < keys.len() && keys[k] == d;
            assert(device_group(st, reg, keys[k]).contains(e));
        }
    }
    m
}


/// A WLED light that is driven directly over its own JSON API.
pub struct WledDirectTarget {
    pub ip: String,
    pub led_count: u32,
}

/// The IP sensors among the first `n` states, keyed by the suffix after
/// `sensor.wled_ip`; `ips[i]` is the trimmed state of `states[i]` when it
/// is an IP address. A later sensor replaces an earlier one.
pub open spec fn ip_table(states: Seq<HaState>, ips: Seq<Option<String>>, n: int) -> Map<
    Seq<char>,
    Seq<char>,
>
    decreases n,
{
    if n <= 0 {
        Map::empty()
    } else {
        let m = ip_table(states, ips, n - 1);
        let eid = states[n - 1].entity_id@;
        if has_prefix(eid, "sensor.wled_ip"@) && ips[n - 1] is Some {
            m.insert(eid.skip("sensor.wled_ip"@.len() as int), ips[n - 1]->0@)
        } else {
            m
        }
    }
}

/// The LED-count sensors among the first `n` states, keyed by the suffix
/// after `sensor.wled_led_count`, for states that read as a `u32`.
pub open spec fn led_table(states: Seq<HaState>, n: int) -> Map<Seq<char>, u32>
    decreases n,
{
    if n <= 0 {
        Map::empty()
    } else {
        let m = led_table(states, n - 1);
        let eid = states[n - 1].entity_id@;
        if has_prefix(eid, "sensor.wled_led_count"@) && parse_u32_spec(states[n - 1].state@) is Some {
            m.insert(
                eid.skip("sensor.wled_led_count"@.len() as int),
                parse_u32_spec(states[n - 1].state@)->0,
            )
        } else {
            m
        }
    }
}

/// The LED count used for a direct target: the sensor's value, 90 when
/// there is none, and never fewer than 3.
pub open spec fn led_count_for(leds: Map<Seq<char>, u32>, suffix: Seq<char>) -> u32 {
    let c = if leds.dom().contains(suffix) {
        leds[suffix]
    } else {
        90u32
    };
    if c < 3 {
        3
    } else {
        c
    }
}

/// The direct targets among the first `n` states: available `light.wled…`
/// lights whose suffix has an IP sensor, with that IP and LED count.
pub open spec fn direct_table(
    states: Seq<HaState>,
    ips: Map<Seq<char>, Seq<char>>,
    leds: Map<Seq<char>, u32>,
    n: int,
) -> Map<Seq<char>, (Seq<char>, u32)>
    decreases n,
{
    if n <= 0 {
        Map::empty()
    } else {
        let m = direct_table(states, ips, leds, n - 1);
        let st = states[n - 1];
        let eid = st.entity_id@;
        if has_prefix(eid, "light.wled"@) && st.state@ != "unavailable"@ {
            match spec_parse_wled_suffix(eid) {
                Some(sfx) => if ips.dom().contains(sfx) {
                    m.insert(eid, (ips[sfx], led_count_for(leds, sfx)))
                } else {
                    m
                },
                None => m,
            }
        } else {
            m
        }
    }
}

/// Every light driven directly gets at least three LEDs.
pub proof fn lemma_direct_led_count_at_least_three(
    states: Seq<HaState>,
    ips: Map<Seq<char>, Seq<char>>,
    leds: Map<Seq<char>, u32>,
    n: int,
)
    ensures
        forall|k: Seq<char>| #[trigger]
            direct_table(states, ips, leds, n).dom().contains(k) ==> direct_table(
                states,
                ips,
                leds,
                n,
            )[k].1 >= 3,
    decreases n,
{
    if n > 0 {
        lemma_direct_led_count_at_least_three(states, ips, leds, n - 1);
        let prev = direct_table(states, ips, leds, n - 1);
        let cur = direct_table(states, ips, leds, n);
        let eid = states[n - 1].entity_id@;
        assert forall|k: Seq<char>| #[trigger] cur.dom().contains(k) implies cur[k].1 >= 3 by {
            if cur != prev {
                let sfx = spec_parse_wled_suffix(eid)->0;
                assert(cur == prev.insert(eid, (ips[sfx], led_count_for(leds, sfx))));
                if k != eid {
                    assert(prev.dom().contains(k));
                }
            } else {
                assert(prev.dom().contains(k));
            }
        }
    }
}

/// The lights of one WLED device all share one target list; it holds at
/// most three of the device's own lights, in segment order.
pub proof fn lemma_segment_targets_shared(
    m: StrMap<Vec<String>>,
    states: Seq<HaState>,
    reg: Seq<HaEntityRegistryEntry>,
    d: Seq<char>,
    e1: Seq<char>,
    e2: Seq<char>,
)
    requires
        is_segment_targets_for(m, states, reg),
        device_group(states, reg, d).contains(e1),
        device_group(states, reg, d).contains(e2),
    ensures
        strings_view(m@[e1]@) == strings_view(m@[e2]@),
        strings_view(m@[e1]@).len() <= 3,
        sorted_by(strings_view(m@[e1]@), segment_leq()),
        forall|t: Seq<char>| #[trigger]
            strings_view(m@[e1]@).contains(t) ==> device_group(states, reg, d).contains(t),
{
    let g = device_group(states, reg, d);
    let sorted = g.sort_by(segment_leq());
    lemma_ranked_total_ordering(segment_rank_fn());
    g.lemma_sort_by_ensures(segment_leq());
    let t = spec_segment_targets(g);
    assert(strings_view(m@[e1]@) == t);
    assert forall|x: Seq<char>| #[trigger] t.contains(x) implies g.contains(x) by {
        let i = choose|i: int| 0 <= i < t.len() && t[i] == x;
        assert(sorted[i] == x);
        assert(sorted.contains(x));
        if !g.contains(x) {
            assert(!sorted.contains(x));
        }
    }
    assert forall|a: int, b: int| 0 <= a < b < t.len() implies #[trigger] segment_leq()(t[a], t[b]) by {
        assert(t[a] == sorted[a] && t[b] == sorted[b]);
    }
}

/// `m` holds exactly the direct targets that the states give.
pub open spec fn is_direct_targets_for(
    m: StrMap<WledDirectTarget>,
    states: Seq<HaState>,
    ips: Seq<Option<String>>,
) -> bool {
    let table = direct_table(
        states,
        ip_table(states, ips, states.len() as int),
        led_table(states, states.len() as int),
        states.len() as int,
    );
    &&& m.wf()
    &&& m@.dom() == table.dom()
    &&& forall|k: Seq<char>| #[trigger]
        m@.dom().contains(k) ==> (m@[k].ip@, m@[k].led_count) == table[k]
}

/// The WLED lights to drive directly, keyed by entity id.
///
/// `ip_candidates[i]` is the trimmed state of `states[i]` when it reads as an
/// IP address, and `None` otherwise.
pub fn compute_wled_direct_targets(states: &[HaState], ip_candidates: &[Option<String>]) -> (m:
    StrMap<WledDirectTarget>)
    requires
        ip_candidates@.len() == states@.len(),
    ensures
        is_direct_targets_for(m, states@, ip_candidates@),
{
    let ghost st = states@;
    let ghost n = st.len() as int;
    let mut ip_by_suffix: StrMap<String> = StrMap::new();
    let mut leds_by_suffix: StrMap<u32> = StrMap::new();
    let mut i: usize = 0;
    while i < states.len()
        invariant
            i <= st.len(),
            st == states@,
            ip_candidates@.len() == st.len(),
            ip_by_suffix.wf(),
            leds_by_suffix.wf(),
            ip_by_suffix@.dom() == ip_table(st, ip_candidates@, i as int).dom(),
            forall|k: Seq<char>| #[trigger]
                ip_by_suffix@.dom().contains(k) ==> ip_by_suffix@[k]@ == ip_table(
                    st,
                    ip_candidates@,
                    i as int,
                )[k],
            leds_by_suffix@ == led_table(st, i as int),
        decreases st.len() - i,
    {
        let eid = chars_of(states[i].entity_id.as_str());
        let ip_prefix = chars_of("sensor.wled_ip");
        if has_prefix_exec(&eid, &ip_prefix) {
            if let Some(ip) = &ip_candidates[i] {
                let suffix = states[i].entity_id.as_str().substring_char(ip_prefix.len(), eid.len());
                let key = String::from_str(suffix);
                assert(key@ =~= eid@.skip("sensor.wled_ip"@.len() as int));
                ip_by_suffix.insert(key, ip.clone());
            }
        }
        let led_prefix = chars_of("sensor.wled_led_count");
        if has_prefix_exec(&eid, &led_prefix) {
            let state_chars = chars_of(states[i].state.as_str());
            if let Some(v) = parse_u32(&state_chars) {
                let suffix = states[i].entity_id.as_str().substring_char(led_prefix.len(), eid.len());
                let key = String::from_str(suffix);
                assert(key@ =~= eid@.skip("sensor.wled_led_count"@.len() as int));
                leds_by_suffix.insert(key, v);
            }
        }
        proof {
            assert(ip_by_suffix@.dom() =~= ip_table(st, ip_candidates@, i + 1).dom());
            assert(leds_by_suffix@ =~= led_table(st, i + 1));
        }
        i += 1;
    }
    let ghost ips = ip_table(st, ip_candidates@, n);
    let ghost leds = led_table(st, n);
    let mut targets: StrMap<WledDirectTarget> = StrMap::new();
    let mut i: usize = 0;
    while i < states.len()
        invariant
            i <= st.len(),
            st == states@,
            n == st.len(),
            ip_by_suffix.wf(),
            leds_by_suffix.wf(),
            ip_by_suffix@.dom() == ips.dom(),
            forall|k: Seq<char>| #[trigger] ip_by_suffix@.dom().contains(k) ==> ip_by_suffix@[k]@ == ips[k],
            leds_by_suffix@ == leds,
            targets.wf(),
            targets@.dom() == direct_table(st, ips, leds, i as int).dom(),
            forall|k: Seq<char>| #[trigger]
                targets@.dom().contains(k) ==> (targets@[k].ip@, targets@[k].led_count)
                    == direct_table(st, ips, leds, i as int)[k],
        decreases st.len() - i,
    {
        let ghost before = direct_table(st, ips, leds, i as int);
        let ghost after = direct_table(st, ips, leds, i + 1);
        let s = &states[i];
        if str_starts_with(s.entity_id.as_str(), "light.wled") && !str_eq(s.state.as_str(), "unavailable") {
            if let Some(suffix) = parse_wled_suffix(s.entity_id.as_str()) {
                if let Some(ip) = ip_by_suffix.get(suffix.as_str()) {
                    let count = match leds_by_suffix.get(suffix.as_str()) {
                        Some(c) => *c,
                        None => 90,
                    };
                    let led_count = if count < 3 {
                        3
                    } else {
                        count
                    };
                    let ghost ev = s.entity_id@;
                    targets.insert(s.entity_id.clone(), WledDirectTarget { ip: ip.clone(), led_count });
                    proof {
                        assert(after == before.insert(ev, (ips[suffix@], led_count_for(leds, suffix@))));
                        assert(targets@.dom() =~= after.dom());
                    }
                } else {
                    assert(after == before);
                }
            } else {
                assert(after == before);
            }
        } else {
            assert(after == before);
        }
        i += 1;
    }
    targets
}


/// The positions of the three colour anchors sampled from `n` gradient
/// points: all the first point for one, first and second (twice) for two,
/// the three for three, first, second and fourth for four, and first,
/// third and fifth for five or more.
pub open spec fn anchor_positions(n: int) -> (int, int, int) {
    if n == 1 {
        (0, 0, 0)
    } else if n == 2 {
        (0, 1, 1)
    } else if n == 3 {
        (0, 1, 2)
    } else if n == 4 {
        (0, 1, 3)
    } else {
        (0, 2, 4)
    }
}

/// The three colour anchors a WLED segment gets from a gradient; none for
/// an empty gradient (which is shown in the white point).
pub fn gradient_anchors<V: Copy>(points: &Vec<(V, V)>) -> (r: Option<((V, V), (V, V), (V, V))>)
    ensures
        r is None <==> points@.len() == 0,
        r matches Some(t) ==> {
            let (a, b, c) = anchor_positions(points@.len() as int);
            t == (points@[a], points@[b], points@[c])
        },
{
    let n = points.len();
    if n == 0 {
        None
    } else if n == 1 {
        Some((points[0], points[0], points[0]))
    } else if n == 2 {
        Some((points[0], points[1], points[1]))
    } else if n == 3 {
        Some((points[0], points[1], points[2]))
    } else if n == 4 {
        Some((points[0], points[1], points[3]))
    } else {
        Some((points[0], points[2], points[4]))
    }
}

/// The end of the single WLED segment that shows a gradient: the LED count,
/// and at least 3.
pub fn wled_segment_stop(led_count: u32) -> (n: u32)
    ensures
        n == (if led_count < 3 {
            3
        } else {
            led_count
        }),
{
    if led_count < 3 {
        3
    } else {
        led_count
    }
}

/// The WLED effect that spreads a segment's colours as a gradient.
pub const GRADIENT_EFFECT: u32 = 46;

/// The WLED palette made of a segment's own three colours.
pub const SEGMENT_COLORS_PALETTE: u32 = 4;

/// What a WLED light is told when it shows a gradient: its state (on unless
/// asked to turn off), no preset or playlist (`-1` for each), and a single
/// segment `segment_id` from LED `start` to `stop` that runs `effect` with
/// `palette` at `speed` and `intensity`, coloured by the three anchors (the
/// white point when `anchors` is `None`).
pub struct WledGradientState<V> {
    pub on: bool,
    pub preset: i32,
    pub playlist: i32,
    pub segment_id: u32,
    pub start: u32,
    pub stop: u32,
    pub speed: u32,
    pub intensity: u32,
    pub effect: u32,
    pub palette: u32,
    pub anchors: Option<((V, V), (V, V), (V, V))>,
}

/// The gradient state sent to a WLED light with `led_count` LEDs.
pub fn wled_gradient_state<V: Copy>(led_count: u32, on: Option<bool>, points: &Vec<(V, V)>) -> (r:
    WledGradientState<V>)
    ensures
        r.on == (on != Some(false)),
        r.preset == -1,
        r.playlist == -1,
        r.segment_id == 0,
        r.start == 0,
        r.speed == 0,
        r.intensity == 0,
        r.stop == (if led_count < 3 {
            3
        } else {
            led_count
        }),
        r.effect == GRADIENT_EFFECT,
        r.palette == SEGMENT_COLORS_PALETTE,
        r.anchors is None <==> points@.len() == 0,
        r.anchors matches Some(t) ==> {
            let (a, b, c) = anchor_positions(points@.len() as int);
            t == (points@[a], points@[b], points@[c])
        },
{
    WledGradientState {
        on: match on {
            Some(b) => b,
            None => true,
        },
        preset: -1,
        playlist: -1,
        segment_id: 0,
        start: 0,
        stop: wled_segment_stop(led_count),
        speed: 0,
        intensity: 0,
        effect: GRADIENT_EFFECT,
        palette: SEGMENT_COLORS_PALETTE,
        anchors: gradient_anchors(points),
    }
}

/// The on/off state sent with a WLED brightness: on unless asked to turn off.
pub fn wled_power(on: Option<bool>) -> (r: bool)
    ensures
        r == (on != Some(false)),
{
    match on {
        Some(b) => b,
        None => true,
    }
}

} // verus!
