//! Unit names, rack names and rack grouping, as the HTTP handlers answer
//! them.
use vstd::prelude::*;
use crate::sort::{Keyed, sort_by_key, sort_by_keys, lemma_sort_strict, strictly_sorted_by_key};
use crate::text::{
    views, decimal, decimal_string, chars_of, lex_lt, string_from_range, str_eq, str_lt, trimmed, trim,
    strip_suffix_ab_spec,
};
use super::{RAW_DATA_LENGTH, METRIC_STEP, ADDRESS_COUNT};

verus! {

/// `text` without one final `'A'`, or else without one final `'B'`.
pub fn strip_suffix_ab(text: &str) -> (r: String)
    ensures
        r@ == strip_suffix_ab_spec(text@),
{
    let cs = chars_of(text);
    let n = cs.len();
    if n > 0 && (cs[n - 1] == 'A' || cs[n - 1] == 'B') {
        let r = string_from_range(&cs, 0, n - 1);
        assert(cs@.subrange(0, n - 1) =~= cs@.drop_last());
        r
    } else {
        let r = string_from_range(&cs, 0, n);
        assert(cs@.subrange(0, n as int) =~= cs@);
        r
    }
}

/// The rack a unit belongs to: its name without an `A` or `B` suffix and
/// without surrounding white space.
pub open spec fn rack_of(name: Seq<char>) -> Seq<char> {
    trim(strip_suffix_ab_spec(name))
}

/// The rack of the unit called `name`.
pub fn rack_name(name: &str) -> (r: String)
    ensures
        r@ == rack_of(name@),
{
    let s = strip_suffix_ab(name);
    trimmed(s.as_str())
}

/// Index of the name field of address number `a + 1`.
pub open spec fn name_index(a: int) -> int {
    a * METRIC_STEP + 1
}

/// The entry of address `a + 1` in the unit name list.
pub open spec fn pdu_name_entry(data: Seq<Seq<char>>, a: int) -> (Seq<char>, Seq<char>) {
    ("pdu_"@ + decimal((a + 1) as nat), "# "@ + decimal((a + 1) as nat) + " "@ + data[name_index(a)])
}

/// The unit names of a status answer: for each address, the key `pdu_` and
/// its number, and the value `# `, the number, a space and the name field.
pub fn pdu_name_list(data: &Vec<String>) -> (names: Vec<(String, String)>)
    requires
        data@.len() >= RAW_DATA_LENGTH,
    ensures
        views(names@) == Seq::new(ADDRESS_COUNT as nat, |a: int| pdu_name_entry(views(data@), a)),
{
    let ghost d = views(data@);
    let mut names: Vec<(String, String)> = Vec::new();
    let mut a: usize = 0;
    while a < ADDRESS_COUNT
        invariant
            a <= ADDRESS_COUNT,
            data@.len() >= RAW_DATA_LENGTH,
            d == views(data@),
            views(names@) == Seq::new(a as nat, |i: int| pdu_name_entry(d, i)),
        decreases ADDRESS_COUNT - a,
    {
        let number = decimal_string(a + 1);
        let mut key = String::from_str("pdu_");
        key.append(number.as_str());
        let mut value = String::from_str("# ");
        value.append(number.as_str());
        value.append(" ");
        let index = a * METRIC_STEP + 1;
        value.append(data[index].as_str());
        assert(d[index as int] == data@[index as int]@);
        let ghost before = names@;
        let ghost entry = (key@, value@);
        assert(entry == pdu_name_entry(d, a as int));
        names.push((key, value));
        assert(views(names@) =~= views(before).push(entry));
        a = a + 1;
        assert(views(names@) =~= Seq::new(a as nat, |i: int| pdu_name_entry(d, i)));
    }
    names
}

/// `s` with every element after its first occurrence left out.
pub open spec fn distinct(s: Seq<Seq<char>>) -> Seq<Seq<char>>
    decreases s.len(),
{
    if s.len() == 0 {
        seq![]
    } else {
        let prev = distinct(s.drop_last());
        if prev.contains(s.last()) {
            prev
        } else {
            prev.push(s.last())
        }
    }
}

/// The entry of address `a + 1` in the rack name list: the key `rack_` and
/// its number, and the value `# `, the number, a space and the name field.
pub open spec fn rack_name_entry(data: Seq<Seq<char>>, a: int) -> (Seq<char>, Seq<char>) {
    ("rack_"@ + decimal((a + 1) as nat), "# "@ + decimal((a + 1) as nat) + " "@ + data[name_index(a)])
}

/// The rack names of a status answer, one per address block, keyed
/// `rack_1` to `rack_32`.
pub fn rack_name_list(data: &Vec<String>) -> (racks: Vec<(String, String)>)
    requires
        data@.len() >= RAW_DATA_LENGTH,
    ensures
        views(racks@) == Seq::new(ADDRESS_COUNT as nat, |a: int| rack_name_entry(views(data@), a)),
{
    let ghost d = views(data@);
    let mut racks: Vec<(String, String)> = Vec::new();
    let mut a: usize = 0;
    while a < ADDRESS_COUNT
        invariant
            a <= ADDRESS_COUNT,
            data@.len() >= RAW_DATA_LENGTH,
            d == views(data@),
            views(racks@) == Seq::new(a as nat, |i: int| rack_name_entry(d, i)),
        decreases ADDRESS_COUNT - a,
    {
        let number = decimal_string(a + 1);
        let mut key = String::from_str("rack_");
        key.append(number.as_str());
        let mut value = String::from_str("# ");
        value.append(number.as_str());
        value.append(" ");
        let index = a * METRIC_STEP + 1;
        value.append(data[index].as_str());
        assert(d[index as int] == data@[index as int]@);
        let ghost before = racks@;
        let ghost entry = (key@, value@);
        assert(entry == rack_name_entry(d, a as int));
        racks.push((key, value));
        assert(views(racks@) =~= views(before).push(entry));
        a = a + 1;
        assert(views(racks@) =~= Seq::new(a as nat, |i: int| rack_name_entry(d, i)));
    }
    racks
}

/// What a unit entry of the rack listing holds, as text.
pub struct PduEntryView {
    pub address: Seq<char>,
    pub name: Seq<char>,
    pub current: Seq<char>,
    pub voltage: Seq<char>,
    pub power: Seq<char>,
}

/// A named unit of the rack listing: its number among the named units, its
/// name, and the unparsed current, voltage and power fields.
pub struct PduEntry {
    pub address: String,
    pub name: String,
    pub current: String,
    pub voltage: String,
    pub power: String,
}

impl View for PduEntry {
    type V = PduEntryView;

    open spec fn view(&self) -> PduEntryView {
        PduEntryView {
            address: self.address@,
            name: self.name@,
            current: self.current@,
            voltage: self.voltage@,
            power: self.power@,
        }
    }
}

impl Keyed for PduEntry {
    open spec fn key_of(v: PduEntryView) -> Seq<char> {
        v.name
    }

    fn key_lt(&self, other: &Self) -> (r: bool) {
        str_lt(self.name.as_str(), other.name.as_str())
    }
}

/// What a rack of the rack listing holds.
pub struct RackGroupView {
    pub rack: Seq<char>,
    pub pdus: Seq<PduEntryView>,
}

/// A rack and its units, in order of their names.
pub struct RackGroup {
    pub rack: String,
    pub pdus: Vec<PduEntry>,
}

impl View for RackGroup {
    type V = RackGroupView;

    open spec fn view(&self) -> RackGroupView {
        RackGroupView { rack: self.rack@, pdus: views(self.pdus@) }
    }
}

impl Keyed for RackGroup {
    open spec fn key_of(v: RackGroupView) -> Seq<char> {
        v.rack
    }

    fn key_lt(&self, other: &Self) -> (r: bool) {
        str_lt(self.rack.as_str(), other.rack.as_str())
    }
}

/// The entries of the named units among the first `n` addresses, numbered
/// from one in address order.
pub open spec fn pdu_entries(data: Seq<Seq<char>>, n: nat) -> Seq<PduEntryView>
    decreases n,
{
    if n == 0 {
        seq![]
    } else {
        let prev = pdu_entries(data, (n - 1) as nat);
        let b = (n - 1) * METRIC_STEP;
        let name = data[b + 1];
        if name.len() > 0 {
            prev.push(
                PduEntryView {
                    address: decimal(prev.len() + 1),
                    name: name,
                    current: data[b + 10],
                    voltage: data[b + 11],
                    power: data[b + 12],
                },
            )
        } else {
            prev
        }
    }
}

/// The racks of the entries of `s`, in order.
pub open spec fn entry_racks(s: Seq<PduEntryView>) -> Seq<Seq<char>> {
    Seq::new(s.len(), |i: int| rack_of(s[i].name))
}

/// The entries of `s` that belong to `rack`, in order.
pub open spec fn rack_members(s: Seq<PduEntryView>, rack: Seq<char>) -> Seq<PduEntryView>
    decreases s.len(),
{
    if s.len() == 0 {
        seq![]
    } else {
        let prev = rack_members(s.drop_last(), rack);
        if rack_of(s.last().name) == rack {
            prev.push(s.last())
        } else {
            prev
        }
    }
}

/// The racks of `s` in order of first appearance, each with its entries.
pub open spec fn groups_of(s: Seq<PduEntryView>) -> Seq<RackGroupView> {
    let keys = distinct(entry_racks(s));
    Seq::new(keys.len(), |g: int| RackGroupView { rack: keys[g], pdus: rack_members(s, keys[g]) })
}

/// `gs` without the racks called `rack`.
pub open spec fn without_rack(gs: Seq<RackGroupView>, rack: Seq<char>) -> Seq<RackGroupView>
    decreases gs.len(),
{
    if gs.len() == 0 {
        seq![]
    } else {
        let prev = without_rack(gs.drop_last(), rack);
        if gs.last().rack == rack {
            prev
        } else {
            prev.push(gs.last())
        }
    }
}

/// The rack listing of a status answer: the named units sorted by name and
/// grouped by rack, the racks sorted by name; the rack `-` is left out, as
/// the listing puts its own `-` entry in its place.
pub open spec fn rack_groups_spec(data: Seq<Seq<char>>) -> Seq<RackGroupView> {
    let units = sort_by_key::<PduEntry>(pdu_entries(data, ADDRESS_COUNT as nat));
    without_rack(sort_by_key::<RackGroup>(groups_of(units)), "-"@)
}

/// An element is in `distinct(s)` exactly when it is in `s`.
pub proof fn lemma_distinct_contains(s: Seq<Seq<char>>, x: Seq<char>)
    ensures
        distinct(s).contains(x) == s.contains(x),
    decreases s.len(),
{
    if s.len() > 0 {
        lemma_distinct_contains(s.drop_last(), x);
        let p = s.drop_last();
        let dp = distinct(p);
        if s.contains(x) {
            let k = choose|k: int| 0 <= k < s.len() && s[k] == x;
            if k < s.len() - 1 {
                assert(p[k] == x);
                if !dp.contains(s.last()) {
                    let j = choose|j: int| 0 <= j < dp.len() && dp[j] == x;
                    assert(dp.push(s.last())[j] == x);
                }
            } else if !dp.contains(s.last()) {
                assert(dp.push(s.last())[dp.len() as int] == x);
            }
        }
        if distinct(s).contains(x) {
            let j = choose|j: int| 0 <= j < distinct(s).len() && distinct(s)[j] == x;
            if dp.contains(x) {
                let k = choose|k: int| 0 <= k < p.len() && p[k] == x;
                assert(s[k] == x);
            } else {
                assert(s[s.len() - 1] == x);
            }
        }
    }
}

/// No element occurs twice in `distinct(s)`.
pub proof fn lemma_distinct_unique(s: Seq<Seq<char>>)
    ensures
        forall|i: int, j: int|
            0 <= i < j < distinct(s).len() ==> distinct(s)[i] != distinct(s)[j],
    decreases s.len(),
{
    if s.len() > 0 {
        lemma_distinct_unique(s.drop_last());
        let dp = distinct(s.drop_last());
        if !dp.contains(s.last()) {
            assert forall|i: int, j: int| 0 <= i < j < distinct(s).len() implies distinct(s)[i]
                != distinct(s)[j] by {
                if j == dp.len() {
                    assert(distinct(s)[i] == dp[i]);
                }
            }
        }
    }
}

/// The members of a rack all belong to it, and every entry belongs to the
/// group of its own rack.
pub proof fn lemma_rack_members(s: Seq<PduEntryView>, rack: Seq<char>)
    ensures
        forall|i: int|
            0 <= i < rack_members(s, rack).len() ==> rack_of(#[trigger] rack_members(s, rack)[i].name) == rack,
        forall|i: int|
            0 <= i < s.len() && rack_of(s[i].name) == rack ==> rack_members(s, rack).contains(#[trigger] s[i]),
    decreases s.len(),
{
    if s.len() > 0 {
        let p = s.drop_last();
        lemma_rack_members(p, rack);
        let m = rack_members(p, rack);
        assert forall|i: int| 0 <= i < s.len() && rack_of(s[i].name) == rack implies rack_members(
            s,
            rack,
        ).contains(#[trigger] s[i]) by {
            if i < s.len() - 1 {
                assert(p[i] == s[i]);
                let k = choose|k: int| 0 <= k < m.len() && m[k] == p[i];
                if rack_of(s.last().name) == rack {
                    assert(m.push(s.last())[k] == s[i]);
                }
            } else {
                assert(m.push(s.last())[m.len() as int] == s[i]);
            }
        }
    }
}

/// Entry `i` of `s` is in the group of its rack.
pub open spec fn in_own_group(s: Seq<PduEntryView>, i: int) -> bool {
    exists|g: int|
        0 <= g < groups_of(s).len() && groups_of(s)[g].rack == rack_of(s[i].name)
            && #[trigger] groups_of(s)[g].pdus.contains(s[i])
}

/// Each rack of the listing appears once, and each named unit appears in the
/// group of its rack, which holds only units of that rack.
pub proof fn lemma_groups_partition(s: Seq<PduEntryView>)
    ensures
        forall|g: int, h: int|
            0 <= g < h < groups_of(s).len() ==> groups_of(s)[g].rack != groups_of(s)[h].rack,
        forall|g: int, i: int|
            0 <= g < groups_of(s).len() && 0 <= i < groups_of(s)[g].pdus.len() ==> rack_of(
                #[trigger] groups_of(s)[g].pdus[i].name,
            ) == groups_of(s)[g].rack,
        forall|i: int| 0 <= i < s.len() ==> #[trigger] in_own_group(s, i),
{
    let keys = distinct(entry_racks(s));
    lemma_distinct_unique(entry_racks(s));
    assert forall|g: int, i: int|
        0 <= g < groups_of(s).len() && 0 <= i < groups_of(s)[g].pdus.len() implies rack_of(
        #[trigger] groups_of(s)[g].pdus[i].name,
    ) == groups_of(s)[g].rack by {
        lemma_rack_members(s, keys[g]);
    }
    assert forall|i: int| 0 <= i < s.len() implies #[trigger] in_own_group(s, i) by {
        let r = rack_of(s[i].name);
        assert(entry_racks(s)[i] == r);
        lemma_distinct_contains(entry_racks(s), r);
        let g = choose|g: int| 0 <= g < keys.len() && keys[g] == r;
        lemma_rack_members(s, r);
        assert(groups_of(s)[g].pdus.contains(s[i]));
        assert(groups_of(s)[g].rack == r);
    }
}

/// Leaving a rack out keeps the racks in strictly increasing order.
proof fn lemma_without_rack_sorted(gs: Seq<RackGroupView>, rack: Seq<char>)
    requires
        forall|g: int, h: int| 0 <= g < h < gs.len() ==> lex_lt(#[trigger] gs[g].rack, #[trigger] gs[h].rack),
    ensures
        forall|g: int, h: int|
            0 <= g < h < without_rack(gs, rack).len() ==> lex_lt(
                #[trigger] without_rack(gs, rack)[g].rack,
                #[trigger] without_rack(gs, rack)[h].rack,
            ),
        forall|g: int|
            0 <= g < without_rack(gs, rack).len() ==> exists|k: int|
                0 <= k < gs.len() && gs[k] == #[trigger] without_rack(gs, rack)[g],
    decreases gs.len(),
{
    if gs.len() > 0 {
        let p = gs.drop_last();
        assert forall|g: int, h: int| 0 <= g < h < p.len() implies lex_lt(#[trigger] p[g].rack, #[trigger] p[h].rack) by {
            assert(p[g] == gs[g] && p[h] == gs[h]);
        }
        lemma_without_rack_sorted(p, rack);
        let w = without_rack(p, rack);
        assert forall|g: int| 0 <= g < w.len() implies exists|k: int|
            0 <= k < gs.len() && gs[k] == #[trigger] w[g] by {
            let k = choose|k: int| 0 <= k < p.len() && p[k] == w[g];
            assert(gs[k] == p[k]);
        }
        if gs.last().rack != rack {
            let u = w.push(gs.last());
            assert forall|g: int, h: int| 0 <= g < h < u.len() implies lex_lt(#[trigger] u[g].rack, #[trigger] u[h].rack) by {
                assert(u[g] == w[g]);
                if h < w.len() {
                    assert(u[h] == w[h]);
                } else {
                    let k = choose|k: int| 0 <= k < p.len() && p[k] == w[g];
                    assert(gs[k] == p[k]);
                    assert(gs[gs.len() - 1] == gs.last());
                }
            }
            assert forall|g: int| 0 <= g < u.len() implies exists|k: int|
                0 <= k < gs.len() && gs[k] == #[trigger] u[g] by {
                if g < w.len() {
                    assert(u[g] == w[g]);
                    let k = choose|k: int| 0 <= k < p.len() && p[k] == w[g];
                    assert(gs[k] == p[k]);
                } else {
                    assert(gs[gs.len() - 1] == u[g]);
                }
            }
        }
    }
}

/// The racks of the rack listing strictly increase by name: each rack
/// appears once, and a rack comes before every rack whose name is greater.
pub proof fn lemma_rack_listing_sorted(data: Seq<Seq<char>>)
    ensures
        forall|g: int, h: int|
            0 <= g < h < rack_groups_spec(data).len() ==> lex_lt(
                #[trigger] rack_groups_spec(data)[g].rack,
                #[trigger] rack_groups_spec(data)[h].rack,
            ),
{
    let units = sort_by_key::<PduEntry>(pdu_entries(data, ADDRESS_COUNT as nat));
    let gs = groups_of(units);
    lemma_groups_partition(units);
    lemma_sort_strict::<RackGroup>(gs);
    let sg = sort_by_key::<RackGroup>(gs);
    assert(strictly_sorted_by_key::<RackGroup>(sg));
    assert forall|g: int, h: int| 0 <= g < h < sg.len() implies lex_lt(#[trigger] sg[g].rack, #[trigger] sg[h].rack) by {
        assert(lex_lt(RackGroup::key_of(sg[g]), RackGroup::key_of(sg[h])));
    }
    lemma_without_rack_sorted(sg, "-"@);
}

/// The entries of a rack that none of the entries belongs to: none.
proof fn lemma_members_absent(s: Seq<PduEntryView>, rack: Seq<char>)
    requires
        !entry_racks(s).contains(rack),
    ensures
        rack_members(s, rack) == Seq::<PduEntryView>::empty(),
    decreases s.len(),
{
    if s.len() > 0 {
        let p = s.drop_last();
        assert forall|k: int| 0 <= k < entry_racks(p).len() implies entry_racks(p)[k] != rack by {
            assert(entry_racks(s)[k] == entry_racks(p)[k]);
        }
        lemma_members_absent(p, rack);
        assert(entry_racks(s)[s.len() - 1] == rack_of(s.last().name));
    }
}

/// Adding an entry of a rack that is already listed.
proof fn lemma_groups_push_known(s: Seq<PduEntryView>, e: PduEntryView, idx: int)
    requires
        0 <= idx < distinct(entry_racks(s)).len(),
        distinct(entry_racks(s))[idx] == rack_of(e.name),
    ensures
        groups_of(s.push(e)) == groups_of(s).update(
            idx,
            RackGroupView { rack: rack_of(e.name), pdus: rack_members(s, rack_of(e.name)).push(e) },
        ),
{
    let r = rack_of(e.name);
    assert(entry_racks(s.push(e)) =~= entry_racks(s).push(r));
    assert(entry_racks(s.push(e)).drop_last() =~= entry_racks(s));
    assert(distinct(entry_racks(s)).contains(r));
    assert(distinct(entry_racks(s.push(e))) == distinct(entry_racks(s)));
    assert(s.push(e).drop_last() =~= s);
    lemma_distinct_unique(entry_racks(s));
    let keys = distinct(entry_racks(s));
    assert forall|g: int| 0 <= g < keys.len() && g != idx implies rack_members(s.push(e), keys[g])
        == rack_members(s, keys[g]) by {
        assert(keys[g] != keys[idx]);
    }
    assert(groups_of(s.push(e)) =~= groups_of(s).update(
        idx,
        RackGroupView { rack: r, pdus: rack_members(s, r).push(e) },
    ));
}

/// Adding an entry of a rack that is not listed yet.
proof fn lemma_groups_push_new(s: Seq<PduEntryView>, e: PduEntryView)
    requires
        !distinct(entry_racks(s)).contains(rack_of(e.name)),
    ensures
        groups_of(s.push(e)) == groups_of(s).push(
            RackGroupView { rack: rack_of(e.name), pdus: seq![e] },
        ),
{
    let r = rack_of(e.name);
    assert(entry_racks(s.push(e)) =~= entry_racks(s).push(r));
    assert(entry_racks(s.push(e)).drop_last() =~= entry_racks(s));
    lemma_distinct_contains(entry_racks(s), r);
    lemma_members_absent(s, r);
    assert(s.push(e).drop_last() =~= s);
    assert(rack_members(s.push(e), r) =~= seq![e]);
    assert(groups_of(s.push(e)) =~= groups_of(s).push(RackGroupView { rack: r, pdus: seq![e] }));
}

/// The entries of the named units of a status answer, in address order.
fn named_entries(data: &Vec<String>) -> (entries: Vec<PduEntry>)
    requires
        data@.len() >= RAW_DATA_LENGTH,
    ensures
        views(entries@) == pdu_entries(views(data@), ADDRESS_COUNT as nat),
{
    let ghost d = views(data@);
    let mut entries: Vec<PduEntry> = Vec::new();
    let mut a: usize = 0;
    while a < ADDRESS_COUNT
        invariant
            a <= ADDRESS_COUNT,
            data@.len() >= RAW_DATA_LENGTH,
            d == views(data@),
            views(entries@) == pdu_entries(d, a as nat),
            entries@.len() <= a,
        decreases ADDRESS_COUNT - a,
    {
        let b = a * METRIC_STEP;
        assert(d[b + 1] == data@[b + 1]@);
        assert(d[b + 10] == data@[b + 10]@);
        assert(d[b + 11] == data@[b + 11]@);
        assert(d[b + 12] == data@[b + 12]@);
        if !data[b + 1].as_str().is_empty() {
            let entry = PduEntry {
                address: decimal_string(entries.len() + 1),
                name: data[b + 1].clone(),
                current: data[b + 10].clone(),
                voltage: data[b + 11].clone(),
                power: data[b + 12].clone(),
            };
            let ghost before = entries@;
            entries.push(entry);
            assert(views(entries@) =~= views(before).push(entry@));
        }
        a = a + 1;
    }
    entries
}

/// The index of the group of `rack`, if `groups` holds one.
fn find_group(groups: &Vec<RackGroup>, rack: &String) -> (r: Option<usize>)
    ensures
        match r {
            Some(i) => i < groups@.len() && groups@[i as int].rack@ == rack@,
            None => forall|i: int| 0 <= i < groups@.len() ==> groups@[i].rack@ != rack@,
        },
{
    let mut i: usize = 0;
    while i < groups.len()
        invariant
            i <= groups@.len(),
            forall|k: int| 0 <= k < i ==> groups@[k].rack@ != rack@,
        decreases groups@.len() - i,
    {
        if str_eq(groups[i].rack.as_str(), rack.as_str()) {
            return Some(i);
        }
        i = i + 1;
    }
    None
}

/// The rack listing of a status answer: the named units sorted by name and
/// grouped by rack, the racks sorted by name, the rack `-` left out.
pub fn rack_groups(data: &Vec<String>) -> (groups: Vec<RackGroup>)
    requires
        data@.len() >= RAW_DATA_LENGTH,
    ensures
        views(groups@) == rack_groups_spec(views(data@)),
        forall|g: int, h: int| 0 <= g < h < groups@.len() ==> lex_lt(#[trigger] groups@[g].rack@, #[trigger] groups@[h].rack@),
{
    let ghost d = views(data@);
    let units = sort_by_keys(named_entries(data));
    let ghost u = views(units@);
    let n = units.len();
    let mut rest = units;
    let mut groups: Vec<RackGroup> = Vec::new();
    let mut k: usize = 0;
    assert(u.skip(0) =~= u);
    assert(views(groups@) =~= groups_of(u.take(0)));
    while rest.len() > 0
        invariant
            k + rest@.len() == n,
            n == u.len(),
            views(rest@) == u.skip(k as int),
            views(groups@) == groups_of(u.take(k as int)),
        decreases rest@.len(),
    {
        let ghost before = rest@;
        let e = rest.remove(0);
        assert(views(before)[0] == before[0]@);
        assert(e@ == u[k as int]);
        assert forall|i: int| 0 <= i < rest@.len() implies #[trigger] views(rest@)[i] == u[k + 1 + i] by {
            assert(rest@[i] == before[i + 1]);
            assert(views(before)[i + 1] == before[i + 1]@);
        }
        assert(u.take(k + 1) =~= u.take(k as int).push(e@));
        let ghost s = u.take(k as int);
        let ghost gs = views(groups@);
        let rack = rack_name(e.name.as_str());
        assert(gs.len() == distinct(entry_racks(s)).len());
        assert forall|i: int| 0 <= i < gs.len() implies #[trigger] gs[i].rack == distinct(entry_racks(s))[i]
            && gs[i] == groups@[i]@ by {}
        match find_group(&groups, &rack) {
            Some(idx) => {
                assert(gs[idx as int] == groups@[idx as int]@);
                proof {
                    lemma_groups_push_known(s, e@, idx as int);
                }
                let ghost old_groups = groups@;
                let mut g = groups.remove(idx);
                let ghost old_pdus = g.pdus@;
                g.pdus.push(e);
                assert(views(g.pdus@) =~= views(old_pdus).push(e@));
                groups.insert(idx, g);
                assert(views(groups@) =~= groups_of(s.push(e@)));
            },
            None => {
                assert forall|i: int| 0 <= i < gs.len() implies gs[i].rack != rack@ by {
                    assert(gs[i] == groups@[i]@);
                }
                assert forall|i: int| 0 <= i < distinct(entry_racks(s)).len() implies distinct(entry_racks(s))[i] != rack@ by {
                    assert(gs[i].rack == distinct(entry_racks(s))[i]);
                }
                assert(!distinct(entry_racks(s)).contains(rack@));
                proof {
                    lemma_groups_push_new(s, e@);
                }
                let mut pdus: Vec<PduEntry> = Vec::new();
                pdus.push(e);
                let g = RackGroup { rack, pdus };
                assert(views(g.pdus@) =~= seq![e@]);
                let ghost old_groups = groups@;
                groups.push(g);
                assert(views(groups@) =~= views(old_groups).push(g@));
            },
        }
        k = k + 1;
        assert(views(rest@) =~= u.skip(k as int));
    }
    assert(u.take(k as int) =~= u);
    let sorted = sort_by_keys(groups);
    let ghost sg = views(sorted@);
    let m = sorted.len();
    let mut rest = sorted;
    let mut out: Vec<RackGroup> = Vec::new();
    let mut j: usize = 0;
    let dash = String::from_str("-");
    assert(sg.skip(0) =~= sg);
    assert(views(out@) =~= without_rack(sg.take(0), "-"@));
    while rest.len() > 0
        invariant
            j + rest@.len() == m,
            m == sg.len(),
            dash@ == "-"@,
            views(rest@) == sg.skip(j as int),
            views(out@) == without_rack(sg.take(j as int), "-"@),
        decreases rest@.len(),
    {
        let ghost before = rest@;
        let g = rest.remove(0);
        assert(views(before)[0] == before[0]@);
        assert(g@ == sg[j as int]);
        assert forall|i: int| 0 <= i < rest@.len() implies #[trigger] views(rest@)[i] == sg[j + 1 + i] by {
            assert(rest@[i] == before[i + 1]);
            assert(views(before)[i + 1] == before[i + 1]@);
        }
        assert(sg.take(j + 1).drop_last() =~= sg.take(j as int));
        if !str_eq(g.rack.as_str(), dash.as_str()) {
            let ghost old_out = out@;
            out.push(g);
            assert(views(out@) =~= views(old_out).push(g@));
        }
        j = j + 1;
        assert(views(rest@) =~= sg.skip(j as int));
    }
    assert(sg.take(j as int) =~= sg);
    proof {
        lemma_rack_listing_sorted(d);
        assert(views(out@) == rack_groups_spec(d));
        assert forall|g: int, h: int| 0 <= g < h < out@.len() implies lex_lt(#[trigger] out@[g].rack@, #[trigger] out@[h].rack@) by {
            assert(views(out@)[g] == out@[g]@);
            assert(views(out@)[h] == out@[h]@);
            assert(lex_lt(rack_groups_spec(d)[g].rack, rack_groups_spec(d)[h].rack));
        }
    }
    out
}

} // verus!
