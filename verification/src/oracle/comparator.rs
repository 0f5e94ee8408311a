//! Differential comparison of traces: the exact first point where two traces diverge.
use vstd::prelude::*;
use vstd::std_specs::iter::IteratorSpec;
use std::collections::BTreeMap;
use crate::types::unit::{CargoAmount, Money};
use crate::oracle::schema::{OracleTraceFrame, VehicleTrace};
use crate::text::{
    cargo_text, decimal, goods_text, push_cargo, push_decimal, push_signed, push_state, push_text,
    push_tile, push_tuple, signed_decimal, state_text, tile_text, tuple_text, goods_items_text,
};

verus! {

broadcast use vstd::std_specs::btree::group_btree_axioms;

/// Exact location and values of a divergence between two traces.
#[derive(Debug, Clone, PartialEq, Eq)]
pub struct DivergencePoint {
    pub tick: u32,
    pub entity: String,
    pub field: String,
    pub rust_value: String,
    pub oracle_value: String,
}

/// The result of a comparison.
#[derive(Debug, Clone, PartialEq, Eq)]
pub struct ComparisonReport {
    pub total_ticks: usize,
    pub matched_ticks: usize,
    pub first_divergence: Option<DivergencePoint>,
}

impl ComparisonReport {
    /// Whether the traces agree: no divergence was found.
    pub fn is_equivalent(&self) -> (r: bool)
        ensures
            r == (self.first_divergence is None),
    {
        match &self.first_divergence {
            Some(_) => false,
            None => true,
        }
    }
}

/// The texts of a divergence point: entity, field, value in the trace under test,
/// value in the reference.
pub type DivergenceTexts = (Seq<char>, Seq<char>, Seq<char>, Seq<char>);

/// The texts of a divergence point.
pub open spec fn texts_of(p: DivergencePoint) -> DivergenceTexts {
    (p.entity@, p.field@, p.rust_value@, p.oracle_value@)
}

/// Company `k` of the trace under test is missing from, or has other money than in,
/// the reference frame.
pub open spec fn company_rbad(r: OracleTraceFrame, o: OracleTraceFrame, k: u32) -> bool {
    r.companies@.contains_key(k) && (!o.companies@.contains_key(k) || o.companies@[k] != r.companies@[k])
}

/// Company `k` is in only one of the frames, or has other money in the reference.
pub open spec fn company_bad(r: OracleTraceFrame, o: OracleTraceFrame, k: u32) -> bool {
    company_rbad(r, o, k) || (!r.companies@.contains_key(k) && o.companies@.contains_key(k))
}

/// Vehicle `k` of the trace under test is missing from the reference frame or differs
/// in position, state or cargo.
pub open spec fn vehicle_rbad(r: OracleTraceFrame, o: OracleTraceFrame, k: u32) -> bool {
    r.vehicles@.contains_key(k) && (!o.vehicles@.contains_key(k) || o.vehicles@[k].position
        != r.vehicles@[k].position || o.vehicles@[k].state != r.vehicles@[k].state || o.vehicles@[k].cargo@
        != r.vehicles@[k].cargo@)
}

/// Vehicle `k` is in only one of the frames, or differs in position, state or cargo.
pub open spec fn vehicle_bad(r: OracleTraceFrame, o: OracleTraceFrame, k: u32) -> bool {
    vehicle_rbad(r, o, k) || (!r.vehicles@.contains_key(k) && o.vehicles@.contains_key(k))
}

/// Station `k` of the trace under test is missing from the reference frame or has
/// other deliveries.
pub open spec fn station_rbad(r: OracleTraceFrame, o: OracleTraceFrame, k: u32) -> bool {
    r.stations@.contains_key(k) && (!o.stations@.contains_key(k) || o.stations@[k]@ != r.stations@[k]@)
}

/// Station `k` is in only one of the frames, or has other deliveries.
pub open spec fn station_bad(r: OracleTraceFrame, o: OracleTraceFrame, k: u32) -> bool {
    station_rbad(r, o, k) || (!r.stations@.contains_key(k) && o.stations@.contains_key(k))
}

/// Whether two frames agree: same tick, and the same companies, vehicles and stations
/// with the same values.
pub open spec fn frames_agree(r: OracleTraceFrame, o: OracleTraceFrame) -> bool {
    &&& r.tick == o.tick
    &&& forall|k: u32| !company_bad(r, o, k)
    &&& forall|k: u32| !vehicle_bad(r, o, k)
    &&& forall|k: u32| !station_bad(r, o, k)
}

/// `Entity(Name(k))`.
pub open spec fn entity_text(entity: Seq<char>, name: Seq<char>, k: u32) -> Seq<char> {
    entity + "("@ + tuple_text(name, decimal(k as nat)) + ")"@
}

/// `ks` lists the keys of `m` in strictly increasing order.
pub open spec fn increasing_keys(ks: Seq<u16>, m: Map<u16, CargoAmount>) -> bool {
    &&& forall|i: int, j: int| 0 <= i < j < ks.len() ==> ks[i] < ks[j]
    &&& forall|k: u16| #[trigger] ks.contains(k) <==> m.contains_key(k)
}

/// The rendering of a station's deliveries.
pub open spec fn deliveries_text(m: Map<u16, CargoAmount>, t: Seq<char>) -> bool {
    exists|ks: Seq<u16>| increasing_keys(ks, m) && t == #[trigger] goods_text(ks, m)
}

/// The texts reported for the first divergence between two frames with equal ticks:
/// the first company (by ID) in only one frame or with other money, else the first
/// vehicle in only one frame or differing in position, state or cargo (checked in that
/// order), else the first station in only one frame or with other deliveries.
pub open spec fn frame_divergence(r: OracleTraceFrame, o: OracleTraceFrame, t: DivergenceTexts) -> bool {
    if r.tick != o.tick {
        t == ("Timeline"@, "tick"@, decimal(r.tick as nat), decimal(o.tick as nat))
    } else if exists|k: u32| company_bad(r, o, k) {
        exists|k: u32| #![trigger company_bad(r, o, k)] company_bad(r, o, k) && (forall|k2: u32| k2 < k ==> !company_bad(r, o, k2)) && {
            let e = entity_text("Company"@, "CompanyID"@, k);
            if !o.companies@.contains_key(k) {
                t == (e, "existence"@, "Present"@, "Missing"@)
            } else if !r.companies@.contains_key(k) {
                t == (e, "existence"@, "Missing"@, "Present"@)
            } else {
                t == (e, "money"@, tuple_text("Money"@, signed_decimal(r.companies@[k].0 as int)), tuple_text(
                    "Money"@,
                    signed_decimal(o.companies@[k].0 as int),
                ))
            }
        }
    } else if exists|k: u32| vehicle_bad(r, o, k) {
        exists|k: u32| #![trigger vehicle_bad(r, o, k)] vehicle_bad(r, o, k) && (forall|k2: u32| k2 < k ==> !vehicle_bad(r, o, k2)) && {
            let e = entity_text("Vehicle"@, "VehicleID"@, k);
            let rv = r.vehicles@[k];
            let ov = o.vehicles@[k];
            if !o.vehicles@.contains_key(k) {
                t == (e, "existence"@, "Present"@, "Missing"@)
            } else if !r.vehicles@.contains_key(k) {
                t == (e, "existence"@, "Missing"@, "Present"@)
            } else if rv.position != ov.position {
                t == (e, "position"@, tile_text(rv.position), tile_text(ov.position))
            } else if rv.state != ov.state {
                t == (e, "state"@, state_text(rv.state), state_text(ov.state))
            } else {
                t == (e, "cargo"@, cargo_text(rv.cargo@), cargo_text(ov.cargo@))
            }
        }
    } else {
        exists|k: u32| #![trigger station_bad(r, o, k)] station_bad(r, o, k) && (forall|k2: u32| k2 < k ==> !station_bad(r, o, k2)) && {
            let e = entity_text("Station"@, "StationID"@, k);
            if !o.stations@.contains_key(k) {
                t == (e, "existence"@, "Present"@, "Missing"@)
            } else if !r.stations@.contains_key(k) {
                t == (e, "existence"@, "Missing"@, "Present"@)
            } else {
                &&& t.0 == e
                &&& t.1 == "goods"@
                &&& deliveries_text(r.stations@[k]@, t.2)
                &&& deliveries_text(o.stations@[k]@, t.3)
            }
        }
    }
}

/// The frames before `i` agree pairwise.
pub open spec fn agree_before(rs: Seq<OracleTraceFrame>, os: Seq<OracleTraceFrame>, i: int) -> bool {
    forall|j: int| 0 <= j < i ==> frames_agree(#[trigger] rs[j], os[j])
}

/// The keys of a table in strictly increasing order.
fn sorted_keys<V>(m: &BTreeMap<u32, V>) -> (ks: Vec<u32>)
    ensures
        forall|i: int, j: int| 0 <= i < j < ks@.len() ==> ks@[i] < ks@[j],
        forall|k: u32| #[trigger] ks@.contains(k) <==> m@.contains_key(k),
{
    let mut ks: Vec<u32> = Vec::new();
    let ghost rs = vstd::std_specs::btree::spec_keys_iter(m).remaining();
    let ghost mut count: int = 0;
    for k in it: m.keys()
        invariant
            count == it.index(),
            rs == vstd::std_specs::btree::spec_keys_iter(m).remaining(),
            ks@.len() == count,
            forall|j: int| 0 <= j < count ==> ks@[j] == *rs[j],
    {
        ks.push(*k);
        proof {
            count = count + 1;
        }
    }
    proof {
        let us = rs.unref();
        assert(ks@ =~= us);
        crate::oracle::order::lemma_increasing_u32(rs);
        assert(us.to_set() == m@.dom());
        assert forall|k: u32| #[trigger] ks@.contains(k) <==> m@.contains_key(k) by {
            if ks@.contains(k) {
                assert(us.to_set().contains(k));
            }
            if m@.contains_key(k) {
                assert(us.to_set().contains(k));
            }
        }
        assert(vstd::std_specs::btree::increasing_seq(rs));
    }
    ks
}

/// The least key of `b` that `a` lacks, if any.
fn first_missing_key<V, W>(a: &BTreeMap<u32, V>, b: &BTreeMap<u32, W>) -> (r: Option<u32>)
    ensures
        r matches Some(k) ==> b@.contains_key(k) && !a@.contains_key(k)
            && forall|k2: u32| k2 < k ==> !(b@.contains_key(k2) && !a@.contains_key(k2)),
        r is None ==> forall|k: u32| b@.contains_key(k) ==> a@.contains_key(k),
{
    let ks = sorted_keys(b);
    let mut i: usize = 0;
    while i < ks.len()
        invariant
            i <= ks@.len(),
            forall|x: int, y: int| 0 <= x < y < ks@.len() ==> ks@[x] < ks@[y],
            forall|k: u32| #[trigger] ks@.contains(k) <==> b@.contains_key(k),
            forall|j: int| 0 <= j < i ==> a@.contains_key(#[trigger] ks@[j]),
        decreases ks@.len() - i,
    {
        let k = ks[i];
        assert(ks@.contains(k));
        if !a.contains_key(&k) {
            proof {
                assert forall|k2: u32| k2 < k implies !(b@.contains_key(k2) && !a@.contains_key(k2)) by {
                    if b@.contains_key(k2) {
                        assert(ks@.contains(k2));
                        let j = choose|j: int| 0 <= j < ks@.len() && ks@[j] == k2;
                        if j > i {
                            assert(ks@[i as int] < ks@[j]);
                        }
                        if j == i {
                            assert(ks@[j] == k);
                        }
                    }
                }
            }
            return Some(k);
        }
        i = i + 1;
    }
    proof {
        assert forall|k: u32| b@.contains_key(k) implies a@.contains_key(k) by {
            assert(ks@.contains(k));
            let j = choose|j: int| 0 <= j < ks@.len() && ks@[j] == k;
            assert(a@.contains_key(ks@[j]));
        }
    }
    None
}

/// The keys of a station's deliveries in strictly increasing order.
fn sorted_goods_keys(m: &BTreeMap<u16, CargoAmount>) -> (ks: Vec<u16>)
    ensures
        increasing_keys(ks@, m@),
{
    let mut ks: Vec<u16> = Vec::new();
    let ghost rs = vstd::std_specs::btree::spec_keys_iter(m).remaining();
    let ghost mut count: int = 0;
    for k in it: m.keys()
        invariant
            count == it.index(),
            rs == vstd::std_specs::btree::spec_keys_iter(m).remaining(),
            ks@.len() == count,
            forall|j: int| 0 <= j < count ==> ks@[j] == *rs[j],
    {
        ks.push(*k);
        proof {
            count = count + 1;
        }
    }
    proof {
        let us = rs.unref();
        assert(ks@ =~= us);
        crate::oracle::order::lemma_increasing_u16(rs);
        assert(us.to_set() == m@.dom());
        assert forall|k: u16| #[trigger] ks@.contains(k) <==> m@.contains_key(k) by {
            if ks@.contains(k) {
                assert(us.to_set().contains(k));
            }
            if m@.contains_key(k) {
                assert(us.to_set().contains(k));
            }
        }
        assert(vstd::std_specs::btree::increasing_seq(rs));
    }
    ks
}

/// The rendering of a station's deliveries.
fn deliveries_string(m: &BTreeMap<u16, CargoAmount>) -> (s: String)
    ensures
        deliveries_text(m@, s@),
{
    let ks = sorted_goods_keys(m);
    let mut s = String::new();
    push_text(&mut s, "{");
    let ghost start = s@;
    let mut i: usize = 0;
    while i < ks.len()
        invariant
            i <= ks@.len(),
            increasing_keys(ks@, m@),
            s@ == start + goods_items_text(ks@.subrange(0, i as int), m@),
        decreases ks@.len() - i,
    {
        let k = ks[i];
        assert(ks@.contains(k));
        let a = *m.get(&k).unwrap();
        if i > 0 {
            push_text(&mut s, ", ");
        }
        push_tuple(&mut s, "CargoType", k as u64);
        push_text(&mut s, ": ");
        push_tuple(&mut s, "CargoAmount", a.0 as u64);
        proof {
            let sub = ks@.subrange(0, i + 1);
            assert(sub.drop_last() =~= ks@.subrange(0, i as int));
            assert(sub.last() == k);
            if i == 0 {
                assert(sub.len() == 1 && sub[0] == k);
                assert(goods_items_text(ks@.subrange(0, 0), m@) == Seq::<char>::empty());
            }
            assert(s@ =~= start + goods_items_text(sub, m@));
        }
        i = i + 1;
    }
    push_text(&mut s, "}");
    proof {
        assert(ks@.subrange(0, i as int) =~= ks@);
        assert(s@ =~= goods_text(ks@, m@));
    }
    s
}

/// A string holding `t`.
fn text(t: &str) -> (s: String)
    ensures
        s@ == t@,
{
    let mut s = String::new();
    push_text(&mut s, t);
    proof {
        assert(s@ =~= t@);
    }
    s
}

/// `Entity(Name(k))`.
fn entity_string(entity: &str, name: &str, k: u32) -> (s: String)
    ensures
        s@ == entity_text(entity@, name@, k),
{
    let mut s = String::new();
    push_text(&mut s, entity);
    push_text(&mut s, "(");
    push_tuple(&mut s, name, k as u64);
    push_text(&mut s, ")");
    proof {
        assert(s@ =~= entity_text(entity@, name@, k));
    }
    s
}

/// A divergence point.
fn point(tick: u32, entity: String, field: &str, rust_value: String, oracle_value: String) -> (p: DivergencePoint)
    ensures
        p.tick == tick,
        texts_of(p) == (entity@, field@, rust_value@, oracle_value@),
{
    DivergencePoint { tick, entity, field: text(field), rust_value, oracle_value }
}

/// Whether two money tables of companies disagree somewhere; the first disagreement.
fn compare_companies(r: &OracleTraceFrame, o: &OracleTraceFrame) -> (d: Option<DivergencePoint>)
    ensures
        d is None <==> forall|k: u32| !company_bad(*r, *o, k),
        d matches Some(p) ==> p.tick == r.tick && exists|k: u32| #![trigger company_bad(*r, *o, k)] company_bad(*r, *o, k)
            && (forall|k2: u32| k2 < k ==> !company_bad(*r, *o, k2)) && {
            let e = entity_text("Company"@, "CompanyID"@, k);
            if !o.companies@.contains_key(k) {
                texts_of(p) == (e, "existence"@, "Present"@, "Missing"@)
            } else if !r.companies@.contains_key(k) {
                texts_of(p) == (e, "existence"@, "Missing"@, "Present"@)
            } else {
                texts_of(p) == (e, "money"@, tuple_text("Money"@, signed_decimal(r.companies@[k].0 as int)), tuple_text(
                    "Money"@,
                    signed_decimal(o.companies@[k].0 as int),
                ))
            }
        },
{
    let ks = sorted_keys(&r.companies);
    let extra = first_missing_key(&r.companies, &o.companies);
    let mut i: usize = 0;
    while i < ks.len()
        invariant
            i <= ks@.len(),
            forall|a: int, b: int| 0 <= a < b < ks@.len() ==> ks@[a] < ks@[b],
            forall|k: u32| #[trigger] ks@.contains(k) <==> r.companies@.contains_key(k),
            forall|j: int| 0 <= j < i ==> !company_rbad(*r, *o, #[trigger] ks@[j]),
            extra matches Some(x) ==> o.companies@.contains_key(x) && !r.companies@.contains_key(x)
                && forall|k2: u32| k2 < x ==> !(o.companies@.contains_key(k2) && !r.companies@.contains_key(k2)),
            extra is None ==> forall|k: u32| o.companies@.contains_key(k) ==> r.companies@.contains_key(k),
        decreases ks@.len() - i,
    {
        let k = ks[i];
        assert(ks@.contains(k));
        let rm = *r.companies.get(&k).unwrap();
        proof {
            assert forall|k2: u32| k2 < k implies !company_rbad(*r, *o, k2) by {
                if r.companies@.contains_key(k2) {
                    assert(ks@.contains(k2));
                    let j = choose|j: int| 0 <= j < ks@.len() && ks@[j] == k2;
                    if j >= i {
                        assert(ks@[i as int] <= ks@[j]) by {
                            if j > i {
                                assert(ks@[i as int] < ks@[j]);
                            }
                        }
                    }
                }
            }
        }
        match extra {
            Some(x) => {
                if x < k {
                    let p = point(r.tick, entity_string("Company", "CompanyID", x), "existence", text("Missing"), text("Present"));
                    proof {
                        assert(company_bad(*r, *o, x));
                        assert forall|k2: u32| k2 < x implies !company_bad(*r, *o, k2) by {
                            assert(!company_rbad(*r, *o, k2));
                        }
                    }
                    return Some(p);
                }
            },
            None => {},
        }
        proof {
            assert(extra matches Some(x) ==> x > k) by {
                if extra is Some {
                    assert(!r.companies@.contains_key(extra->0));
                }
            }
            assert forall|k2: u32| k2 < k implies !company_bad(*r, *o, k2) by {
                assert(!company_rbad(*r, *o, k2));
            }
        }
        match o.companies.get(&k) {
            Some(om) => {
                if om.0 != rm.0 {
                    let mut rv = text("Money");
                    push_text(&mut rv, "(");
                    push_signed(&mut rv, rm.0);
                    push_text(&mut rv, ")");
                    let mut ov = text("Money");
                    push_text(&mut ov, "(");
                    push_signed(&mut ov, om.0);
                    push_text(&mut ov, ")");
                    let p = point(r.tick, entity_string("Company", "CompanyID", k), "money", rv, ov);
                    proof {
                        assert(company_rbad(*r, *o, k));
                        assert(company_bad(*r, *o, k));
                        assert(p.rust_value@ =~= tuple_text("Money"@, signed_decimal(r.companies@[k].0 as int)));
                        assert(p.oracle_value@ =~= tuple_text("Money"@, signed_decimal(o.companies@[k].0 as int)));
                    }
                    return Some(p);
                }
            },
            None => {
                let p = point(r.tick, entity_string("Company", "CompanyID", k), "existence", text("Present"), text("Missing"));
                proof {
                    assert(company_rbad(*r, *o, k));
                        assert(company_bad(*r, *o, k));
                }
                return Some(p);
            },
        }
        i = i + 1;
    }
    proof {
        assert forall|k: u32| !company_rbad(*r, *o, k) by {
            if r.companies@.contains_key(k) {
                assert(ks@.contains(k));
                let j = choose|j: int| 0 <= j < ks@.len() && ks@[j] == k;
                assert(!company_rbad(*r, *o, ks@[j]));
            }
        }
    }
    match extra {
        Some(x) => {
            let p = point(r.tick, entity_string("Company", "CompanyID", x), "existence", text("Missing"), text("Present"));
            proof {
                assert(company_bad(*r, *o, x));
                assert forall|k2: u32| k2 < x implies !company_bad(*r, *o, k2) by {
                    assert(!company_rbad(*r, *o, k2));
                }
            }
            Some(p)
        },
        None => {
            proof {
                assert forall|k: u32| !company_bad(*r, *o, k) by {
                    assert(!company_rbad(*r, *o, k));
                }
            }
            None
        },
    }
}

/// The first vehicle disagreement between two frames.
fn compare_vehicles(r: &OracleTraceFrame, o: &OracleTraceFrame) -> (d: Option<DivergencePoint>)
    ensures
        d is None <==> forall|k: u32| !vehicle_bad(*r, *o, k),
        d matches Some(p) ==> p.tick == r.tick && exists|k: u32| #![trigger vehicle_bad(*r, *o, k)] vehicle_bad(*r, *o, k)
            && (forall|k2: u32| k2 < k ==> !vehicle_bad(*r, *o, k2)) && {
            let e = entity_text("Vehicle"@, "VehicleID"@, k);
            let rv = r.vehicles@[k];
            let ov = o.vehicles@[k];
            if !o.vehicles@.contains_key(k) {
                texts_of(p) == (e, "existence"@, "Present"@, "Missing"@)
            } else if !r.vehicles@.contains_key(k) {
                texts_of(p) == (e, "existence"@, "Missing"@, "Present"@)
            } else if rv.position != ov.position {
                texts_of(p) == (e, "position"@, tile_text(rv.position), tile_text(ov.position))
            } else if rv.state != ov.state {
                texts_of(p) == (e, "state"@, state_text(rv.state), state_text(ov.state))
            } else {
                texts_of(p) == (e, "cargo"@, cargo_text(rv.cargo@), cargo_text(ov.cargo@))
            }
        },
{
    let ks = sorted_keys(&r.vehicles);
    let extra = first_missing_key(&r.vehicles, &o.vehicles);
    let mut i: usize = 0;
    while i < ks.len()
        invariant
            i <= ks@.len(),
            forall|a: int, b: int| 0 <= a < b < ks@.len() ==> ks@[a] < ks@[b],
            forall|k: u32| #[trigger] ks@.contains(k) <==> r.vehicles@.contains_key(k),
            forall|j: int| 0 <= j < i ==> !vehicle_rbad(*r, *o, #[trigger] ks@[j]),
            extra matches Some(x) ==> o.vehicles@.contains_key(x) && !r.vehicles@.contains_key(x)
                && forall|k2: u32| k2 < x ==> !(o.vehicles@.contains_key(k2) && !r.vehicles@.contains_key(k2)),
            extra is None ==> forall|k: u32| o.vehicles@.contains_key(k) ==> r.vehicles@.contains_key(k),
        decreases ks@.len() - i,
    {
        let k = ks[i];
        assert(ks@.contains(k));
        let rv = r.vehicles.get(&k).unwrap();
        proof {
            assert forall|k2: u32| k2 < k implies !vehicle_rbad(*r, *o, k2) by {
                if r.vehicles@.contains_key(k2) {
                    assert(ks@.contains(k2));
                    let j = choose|j: int| 0 <= j < ks@.len() && ks@[j] == k2;
                    if j >= i {
                        if j > i {
                            assert(ks@[i as int] < ks@[j]);
                        }
                    }
                }
            }
        }
        match extra {
            Some(x) => {
                if x < k {
                    let p = point(r.tick, entity_string("Vehicle", "VehicleID", x), "existence", text("Missing"), text("Present"));
                    proof {
                        assert(vehicle_bad(*r, *o, x));
                        assert forall|k2: u32| k2 < x implies !vehicle_bad(*r, *o, k2) by {
                            assert(!vehicle_rbad(*r, *o, k2));
                        }
                    }
                    return Some(p);
                }
            },
            None => {},
        }
        proof {
            assert(extra matches Some(x) ==> x > k) by {
                if extra is Some {
                    assert(!r.vehicles@.contains_key(extra->0));
                }
            }
            assert forall|k2: u32| k2 < k implies !vehicle_bad(*r, *o, k2) by {
                assert(!vehicle_rbad(*r, *o, k2));
            }
        }
        match o.vehicles.get(&k) {
            Some(ov) => {
                if rv.position.x != ov.position.x || rv.position.y != ov.position.y {
                    let mut a = String::new();
                    push_tile(&mut a, rv.position);
                    let mut b = String::new();
                    push_tile(&mut b, ov.position);
                    let p = point(r.tick, entity_string("Vehicle", "VehicleID", k), "position", a, b);
                    proof {
                        assert(vehicle_rbad(*r, *o, k));
                        assert(vehicle_bad(*r, *o, k));
                        assert(p.rust_value@ =~= tile_text(rv.position));
                        assert(p.oracle_value@ =~= tile_text(ov.position));
                    }
                    return Some(p);
                }
                if rv.state != ov.state {
                    let mut a = String::new();
                    push_state(&mut a, rv.state);
                    let mut b = String::new();
                    push_state(&mut b, ov.state);
                    let p = point(r.tick, entity_string("Vehicle", "VehicleID", k), "state", a, b);
                    proof {
                        assert(vehicle_rbad(*r, *o, k));
                        assert(vehicle_bad(*r, *o, k));
                        assert(p.rust_value@ =~= state_text(rv.state));
                        assert(p.oracle_value@ =~= state_text(ov.state));
                    }
                    return Some(p);
                }
                if !same_cargo(&rv.cargo, &ov.cargo) {
                    let mut a = String::new();
                    push_cargo(&mut a, &rv.cargo);
                    let mut b = String::new();
                    push_cargo(&mut b, &ov.cargo);
                    let p = point(r.tick, entity_string("Vehicle", "VehicleID", k), "cargo", a, b);
                    proof {
                        assert(vehicle_rbad(*r, *o, k));
                        assert(vehicle_bad(*r, *o, k));
                        assert(p.rust_value@ =~= cargo_text(rv.cargo@));
                        assert(p.oracle_value@ =~= cargo_text(ov.cargo@));
                    }
                    return Some(p);
                }
            },
            None => {
                let p = point(r.tick, entity_string("Vehicle", "VehicleID", k), "existence", text("Present"), text("Missing"));
                proof {
                    assert(vehicle_rbad(*r, *o, k));
                        assert(vehicle_bad(*r, *o, k));
                }
                return Some(p);
            },
        }
        i = i + 1;
    }
    proof {
        assert forall|k: u32| !vehicle_rbad(*r, *o, k) by {
            if r.vehicles@.contains_key(k) {
                assert(ks@.contains(k));
                let j = choose|j: int| 0 <= j < ks@.len() && ks@[j] == k;
                assert(!vehicle_rbad(*r, *o, ks@[j]));
            }
        }
    }
    match extra {
        Some(x) => {
            let p = point(r.tick, entity_string("Vehicle", "VehicleID", x), "existence", text("Missing"), text("Present"));
            proof {
                assert(vehicle_bad(*r, *o, x));
                assert forall|k2: u32| k2 < x implies !vehicle_bad(*r, *o, k2) by {
                    assert(!vehicle_rbad(*r, *o, k2));
                }
            }
            Some(p)
        },
        None => {
            proof {
                assert forall|k: u32| !vehicle_bad(*r, *o, k) by {
                    assert(!vehicle_rbad(*r, *o, k));
                }
            }
            None
        },
    }
}

/// The first station disagreement between two frames.
fn compare_stations(r: &OracleTraceFrame, o: &OracleTraceFrame) -> (d: Option<DivergencePoint>)
    ensures
        d is None <==> forall|k: u32| !station_bad(*r, *o, k),
        d matches Some(p) ==> p.tick == r.tick && exists|k: u32| #![trigger station_bad(*r, *o, k)] station_bad(*r, *o, k)
            && (forall|k2: u32| k2 < k ==> !station_bad(*r, *o, k2)) && {
            let e = entity_text("Station"@, "StationID"@, k);
            if !o.stations@.contains_key(k) {
                texts_of(p) == (e, "existence"@, "Present"@, "Missing"@)
            } else if !r.stations@.contains_key(k) {
                texts_of(p) == (e, "existence"@, "Missing"@, "Present"@)
            } else {
                &&& texts_of(p).0 == e
                &&& texts_of(p).1 == "goods"@
                &&& deliveries_text(r.stations@[k]@, texts_of(p).2)
                &&& deliveries_text(o.stations@[k]@, texts_of(p).3)
            }
        },
{
    let ks = sorted_keys(&r.stations);
    let extra = first_missing_key(&r.stations, &o.stations);
    let mut i: usize = 0;
    while i < ks.len()
        invariant
            i <= ks@.len(),
            forall|a: int, b: int| 0 <= a < b < ks@.len() ==> ks@[a] < ks@[b],
            forall|k: u32| #[trigger] ks@.contains(k) <==> r.stations@.contains_key(k),
            forall|j: int| 0 <= j < i ==> !station_rbad(*r, *o, #[trigger] ks@[j]),
            extra matches Some(x) ==> o.stations@.contains_key(x) && !r.stations@.contains_key(x)
                && forall|k2: u32| k2 < x ==> !(o.stations@.contains_key(k2) && !r.stations@.contains_key(k2)),
            extra is None ==> forall|k: u32| o.stations@.contains_key(k) ==> r.stations@.contains_key(k),
        decreases ks@.len() - i,
    {
        let k = ks[i];
        assert(ks@.contains(k));
        let rg = r.stations.get(&k).unwrap();
        proof {
            assert forall|k2: u32| k2 < k implies !station_rbad(*r, *o, k2) by {
                if r.stations@.contains_key(k2) {
                    assert(ks@.contains(k2));
                    let j = choose|j: int| 0 <= j < ks@.len() && ks@[j] == k2;
                    if j > i {
                        assert(ks@[i as int] < ks@[j]);
                    }
                }
            }
        }
        match extra {
            Some(x) => {
                if x < k {
                    let p = point(r.tick, entity_string("Station", "StationID", x), "existence", text("Missing"), text("Present"));
                    proof {
                        assert(station_bad(*r, *o, x));
                        assert forall|k2: u32| k2 < x implies !station_bad(*r, *o, k2) by {
                            assert(!station_rbad(*r, *o, k2));
                        }
                    }
                    return Some(p);
                }
            },
            None => {},
        }
        proof {
            assert(extra matches Some(x) ==> x > k) by {
                if extra is Some {
                    assert(!r.stations@.contains_key(extra->0));
                }
            }
            assert forall|k2: u32| k2 < k implies !station_bad(*r, *o, k2) by {
                assert(!station_rbad(*r, *o, k2));
            }
        }
        match o.stations.get(&k) {
            Some(og) => {
                if !same_deliveries(rg, og) {
                    let p = point(r.tick, entity_string("Station", "StationID", k), "goods", deliveries_string(rg), deliveries_string(og));
                    proof {
                        assert(station_rbad(*r, *o, k));
                        assert(station_bad(*r, *o, k));
                    }
                    return Some(p);
                }
            },
            None => {
                let p = point(r.tick, entity_string("Station", "StationID", k), "existence", text("Present"), text("Missing"));
                proof {
                    assert(station_rbad(*r, *o, k));
                        assert(station_bad(*r, *o, k));
                }
                return Some(p);
            },
        }
        i = i + 1;
    }
    proof {
        assert forall|k: u32| !station_rbad(*r, *o, k) by {
            if r.stations@.contains_key(k) {
                assert(ks@.contains(k));
                let j = choose|j: int| 0 <= j < ks@.len() && ks@[j] == k;
                assert(!station_rbad(*r, *o, ks@[j]));
            }
        }
    }
    match extra {
        Some(x) => {
            let p = point(r.tick, entity_string("Station", "StationID", x), "existence", text("Missing"), text("Present"));
            proof {
                assert(station_bad(*r, *o, x));
                assert forall|k2: u32| k2 < x implies !station_bad(*r, *o, k2) by {
                    assert(!station_rbad(*r, *o, k2));
                }
            }
            Some(p)
        },
        None => {
            proof {
                assert forall|k: u32| !station_bad(*r, *o, k) by {
                    assert(!station_rbad(*r, *o, k));
                }
            }
            None
        },
    }
}

/// Whether two cargo lists are equal.
fn same_cargo(a: &Vec<(crate::types::id::CargoType, CargoAmount)>, b: &Vec<(crate::types::id::CargoType, CargoAmount)>) -> (r: bool)
    ensures
        r == (a@ == b@),
{
    if a.len() != b.len() {
        return false;
    }
    let mut i: usize = 0;
    while i < a.len()
        invariant
            i <= a@.len(),
            a@.len() == b@.len(),
            forall|j: int| 0 <= j < i ==> a@[j] == b@[j],
        decreases a@.len() - i,
    {
        if a[i].0.0 != b[i].0.0 || a[i].1.0 != b[i].1.0 {
            return false;
        }
        i = i + 1;
    }
    proof {
        assert(a@ =~= b@);
    }
    true
}

/// Strictly increasing keys of a table count its keys, which are finitely many.
proof fn lemma_keys_count(ks: Seq<u16>, m: Map<u16, CargoAmount>)
    requires
        increasing_keys(ks, m),
    ensures
        m.dom().finite(),
        m.dom().len() == ks.len(),
{
    assert(ks.no_duplicates()) by {
        assert forall|i: int, j: int| 0 <= i < ks.len() && 0 <= j < ks.len() && i != j implies ks[i] != ks[j] by {
            if i < j {
                assert(ks[i] < ks[j]);
            } else {
                assert(ks[j] < ks[i]);
            }
        }
    }
    assert(ks.to_set() =~= m.dom());
    ks.unique_seq_to_set();
}

/// Whether two station projections are equal.
fn same_deliveries(a: &BTreeMap<u16, CargoAmount>, b: &BTreeMap<u16, CargoAmount>) -> (r: bool)
    ensures
        r == (a@ == b@),
{
    let ka = sorted_goods_keys(a);
    let kb = sorted_goods_keys(b);
    if ka.len() != kb.len() {
        proof {
            if a@ == b@ {
                lemma_keys_count(ka@, a@);
                lemma_keys_count(kb@, b@);
            }
        }
        return false;
    }
    let mut i: usize = 0;
    while i < ka.len()
        invariant
            i <= ka@.len(),
            ka@.len() == kb@.len(),
            increasing_keys(ka@, a@),
            increasing_keys(kb@, b@),
            forall|j: int| 0 <= j < i ==> b@.contains_key(#[trigger] ka@[j]) && a@[ka@[j]] == b@[ka@[j]],
        decreases ka@.len() - i,
    {
        let k = ka[i];
        assert(ka@.contains(k));
        let av = *a.get(&k).unwrap();
        match b.get(&k) {
            Some(bv) => {
                if av.0 != bv.0 {
                    return false;
                }
            },
            None => {
                return false;
            },
        }
        i = i + 1;
    }
    proof {
        assert(a@.dom().subset_of(b@.dom())) by {
            assert forall|k: u16| a@.contains_key(k) implies b@.contains_key(k) by {
                assert(ka@.contains(k));
                let j = choose|j: int| 0 <= j < ka@.len() && ka@[j] == k;
                assert(b@.contains_key(ka@[j]));
            }
        }
        lemma_keys_count(ka@, a@);
        lemma_keys_count(kb@, b@);
        assert(a@.dom() =~= b@.dom()) by {
            vstd::set_lib::lemma_subset_equality(a@.dom(), b@.dom());
        }
        assert forall|k: u16| a@.contains_key(k) implies a@[k] == b@[k] by {
            assert(ka@.contains(k));
            let j = choose|j: int| 0 <= j < ka@.len() && ka@[j] == k;
            assert(a@[ka@[j]] == b@[ka@[j]]);
        }
        assert(a@ =~= b@);
    }
    true
}

/// The first divergence between two frames, if any.
fn compare_frames(r: &OracleTraceFrame, o: &OracleTraceFrame) -> (d: Option<DivergencePoint>)
    ensures
        d is None <==> frames_agree(*r, *o),
        d matches Some(p) ==> p.tick == r.tick && frame_divergence(*r, *o, texts_of(p)),
{
    if r.tick != o.tick {
        let mut a = String::new();
        push_decimal(&mut a, r.tick as u64);
        let mut b = String::new();
        push_decimal(&mut b, o.tick as u64);
        let p = point(r.tick, text("Timeline"), "tick", a, b);
        proof {
            assert(a@ =~= decimal(r.tick as nat));
            assert(b@ =~= decimal(o.tick as nat));
        }
        return Some(p);
    }
    match compare_companies(r, o) {
        Some(p) => {
            return Some(p);
        },
        None => {},
    }
    match compare_vehicles(r, o) {
        Some(p) => {
            return Some(p);
        },
        None => {},
    }
    compare_stations(r, o)
}

/// Differential comparator detecting the exact first point of divergence.
pub struct DivergenceDetector;

impl DivergenceDetector {
    /// Compare a trace against a reference, frame by frame up to the shorter length:
    /// the first frame pair that disagrees is reported (per `frame_divergence`) with
    /// the number of frames matched before it; if all agree, traces of different lengths
    /// are reported as diverging in length at the first unmatched frame, and traces of
    /// the same length are equivalent.
    pub fn compare(rust_trace: &[OracleTraceFrame], oracle_trace: &[OracleTraceFrame]) -> (report: ComparisonReport)
        ensures
            ({
                let rs = rust_trace@;
                let os = oracle_trace@;
                let n = if rs.len() <= os.len() { rs.len() } else { os.len() };
                if exists|i: int| 0 <= i < n && agree_before(rs, os, i) && !frames_agree(rs[i], os[i]) {
                    exists|i: int| #![trigger rs[i]] {
                        &&& 0 <= i < n
                        &&& agree_before(rs, os, i)
                        &&& !frames_agree(rs[i], os[i])
                        &&& report.total_ticks == n
                        &&& report.matched_ticks == i
                        &&& report.first_divergence matches Some(p)
                        &&& p.tick == rs[i].tick
                        &&& frame_divergence(rs[i], os[i], texts_of(p))
                    }
                } else if rs.len() != os.len() {
                    &&& report.total_ticks == (if rs.len() >= os.len() { rs.len() } else { os.len() })
                    &&& report.matched_ticks == n
                    &&& report.first_divergence matches Some(p)
                    &&& p.tick == n as u32
                    &&& texts_of(p) == ("TraceLength"@, "length"@, decimal(rs.len()), decimal(os.len()))
                } else {
                    &&& report.total_ticks == n
                    &&& report.matched_ticks == n
                    &&& report.first_divergence is None
                }
            }),
    {
        let rl = rust_trace.len();
        let ol = oracle_trace.len();
        let n = if rl <= ol { rl } else { ol };
        let mut i: usize = 0;
        while i < n
            invariant
                i <= n,
                n == (if rust_trace@.len() <= oracle_trace@.len() { rust_trace@.len() } else { oracle_trace@.len() }),
                agree_before(rust_trace@, oracle_trace@, i as int),
            decreases n - i,
        {
            match compare_frames(&rust_trace[i], &oracle_trace[i]) {
                Some(p) => {
                    proof {
                        let rs = rust_trace@;
                        let os = oracle_trace@;
                        assert(0 <= i < n && agree_before(rs, os, i as int) && !frames_agree(rs[i as int], os[i as int]));
                    }
                    return ComparisonReport { total_ticks: n, matched_ticks: i, first_divergence: Some(p) };
                },
                None => {},
            }
            i = i + 1;
        }
        proof {
            let rs = rust_trace@;
            let os = oracle_trace@;
            assert forall|k: int| !(0 <= k < n && agree_before(rs, os, k) && !frames_agree(rs[k], os[k])) by {
                if 0 <= k < n {
                    assert(frames_agree(rs[k], os[k]));
                }
            }
        }
        if rl != ol {
            let mut a = String::new();
            push_decimal(&mut a, rl as u64);
            let mut b = String::new();
            push_decimal(&mut b, ol as u64);
            proof {
                assert(a@ =~= decimal(rl as nat));
                assert(b@ =~= decimal(ol as nat));
            }
            let total = if rl >= ol { rl } else { ol };
            return ComparisonReport {
                total_ticks: total,
                matched_ticks: n,
                first_divergence: Some(point(n as u32, text("TraceLength"), "length", a, b)),
            };
        }
        ComparisonReport { total_ticks: n, matched_ticks: n, first_divergence: None }
    }
}

} // verus!
