//! Text renderings of values as Rust's `Debug` and `Display` formatting write them:
//! decimals, tuple structs, tiles, vehicle states and cargo lists.
use vstd::prelude::*;
use vstd::string::StringExecFns;
use crate::types::enums::VehicleState;
use crate::types::id::{CargoType, TileIndex};
use crate::types::unit::CargoAmount;

verus! {

/// The decimal digit character for `d < 10`.
pub open spec fn digit(d: int) -> char {
    if d == 0 {
        '0'
    } else if d == 1 {
        '1'
    } else if d == 2 {
        '2'
    } else if d == 3 {
        '3'
    } else if d == 4 {
        '4'
    } else if d == 5 {
        '5'
    } else if d == 6 {
        '6'
    } else if d == 7 {
        '7'
    } else if d == 8 {
        '8'
    } else {
        '9'
    }
}

/// The decimal representation of `n`.
pub open spec fn decimal(n: nat) -> Seq<char>
    decreases n,
{
    if n < 10 {
        seq![digit(n as int)]
    } else {
        decimal(n / 10).push(digit((n % 10) as int))
    }
}

/// The decimal representation of a signed integer.
pub open spec fn signed_decimal(n: int) -> Seq<char> {
    if n < 0 {
        seq!['-'] + decimal((-n) as nat)
    } else {
        decimal(n as nat)
    }
}

/// `Name(n)`, the rendering of a one-field tuple struct holding an integer.
pub open spec fn tuple_text(name: Seq<char>, n: Seq<char>) -> Seq<char> {
    name + "("@ + n + ")"@
}

/// The rendering of a tile: `TileIndex { x: X, y: Y }`.
pub open spec fn tile_text(t: TileIndex) -> Seq<char> {
    "TileIndex { x: "@ + decimal(t.x as nat) + ", y: "@ + decimal(t.y as nat) + " }"@
}

/// The rendering of a vehicle state.
pub open spec fn state_text(s: VehicleState) -> Seq<char> {
    match s {
        VehicleState::Idle => "Idle"@,
        VehicleState::Traveling => "Traveling"@,
        VehicleState::Waiting(n) => tuple_text("Waiting"@, decimal(n as nat)),
        VehicleState::Loading => "Loading"@,
    }
}

/// The rendering of one cargo entry: `(CargoType(C), CargoAmount(A))`.
pub open spec fn cargo_entry_text(e: (CargoType, CargoAmount)) -> Seq<char> {
    "("@ + tuple_text("CargoType"@, decimal(e.0.0 as nat)) + ", "@ + tuple_text("CargoAmount"@, decimal(e.1.0 as nat)) + ")"@
}

/// The cargo entries rendered and separated by `, `.
pub open spec fn cargo_items_text(c: Seq<(CargoType, CargoAmount)>) -> Seq<char>
    decreases c.len(),
{
    if c.len() == 0 {
        Seq::empty()
    } else if c.len() == 1 {
        cargo_entry_text(c[0])
    } else {
        cargo_items_text(c.drop_last()) + ", "@ + cargo_entry_text(c.last())
    }
}

/// The rendering of a cargo list: `[` entries `]`.
pub open spec fn cargo_text(c: Seq<(CargoType, CargoAmount)>) -> Seq<char> {
    "["@ + cargo_items_text(c) + "]"@
}

/// One goods entry of a station projection: `CargoType(C): CargoAmount(A)`.
pub open spec fn goods_entry_text(k: u16, a: CargoAmount) -> Seq<char> {
    tuple_text("CargoType"@, decimal(k as nat)) + ": "@ + tuple_text("CargoAmount"@, decimal(a.0 as nat))
}

/// The goods entries for the keys `ks` of `m`, separated by `, `.
pub open spec fn goods_items_text(ks: Seq<u16>, m: Map<u16, CargoAmount>) -> Seq<char>
    decreases ks.len(),
{
    if ks.len() == 0 {
        Seq::empty()
    } else if ks.len() == 1 {
        goods_entry_text(ks[0], m[ks[0]])
    } else {
        goods_items_text(ks.drop_last(), m) + ", "@ + goods_entry_text(ks.last(), m[ks.last()])
    }
}

/// The rendering of a station projection whose keys in increasing order are `ks`:
/// `{` entries `}`.
pub open spec fn goods_text(ks: Seq<u16>, m: Map<u16, CargoAmount>) -> Seq<char> {
    "{"@ + goods_items_text(ks, m) + "}"@
}

/// Appends `t` to `s`.
pub(crate) fn push_text(s: &mut String, t: &str)
    ensures
        final(s)@ == old(s)@ + t@,
{
    s.append(t);
}

/// The digit text for `d < 10`.
fn digit_text(d: u64) -> (t: &'static str)
    requires
        d < 10,
    ensures
        t@ == seq![digit(d as int)],
{
    if d == 0 {
        proof { reveal_strlit("0"); }
        "0"
    } else if d == 1 {
        proof { reveal_strlit("1"); }
        "1"
    } else if d == 2 {
        proof { reveal_strlit("2"); }
        "2"
    } else if d == 3 {
        proof { reveal_strlit("3"); }
        "3"
    } else if d == 4 {
        proof { reveal_strlit("4"); }
        "4"
    } else if d == 5 {
        proof { reveal_strlit("5"); }
        "5"
    } else if d == 6 {
        proof { reveal_strlit("6"); }
        "6"
    } else if d == 7 {
        proof { reveal_strlit("7"); }
        "7"
    } else if d == 8 {
        proof { reveal_strlit("8"); }
        "8"
    } else {
        proof { reveal_strlit("9"); }
        "9"
    }
}

/// Appends the decimal representation of `n`.
pub fn push_decimal(s: &mut String, n: u64)
    ensures
        final(s)@ == old(s)@ + decimal(n as nat),
    decreases n,
{
    if n >= 10 {
        push_decimal(s, n / 10);
    }
    push_text(s, digit_text(n % 10));
    proof {
        if n >= 10 {
            assert(decimal(n as nat) == decimal((n / 10) as nat).push(digit((n % 10) as int)));
        }
        assert(old(s)@ + decimal(n as nat) =~= s@);
    }
}

/// Appends the decimal representation of a signed integer.
pub fn push_signed(s: &mut String, n: i64)
    ensures
        final(s)@ == old(s)@ + signed_decimal(n as int),
{
    if n < 0 {
        proof {
            reveal_strlit("-");
        }
        push_text(s, "-");
        let m: u64 = (-(n as i128)) as u64;
        let ghost mid = s@;
        push_decimal(s, m);
        proof {
            assert(s@ =~= old(s)@ + signed_decimal(n as int));
        }
    } else {
        push_decimal(s, n as u64);
    }
}

/// Appends `Name(n)`.
pub fn push_tuple(s: &mut String, name: &str, n: u64)
    ensures
        final(s)@ == old(s)@ + tuple_text(name@, decimal(n as nat)),
{
    push_text(s, name);
    push_text(s, "(");
    push_decimal(s, n);
    push_text(s, ")");
    proof {
        assert(s@ =~= old(s)@ + tuple_text(name@, decimal(n as nat)));
    }
}

/// Appends the rendering of a tile.
pub fn push_tile(s: &mut String, t: TileIndex)
    ensures
        final(s)@ == old(s)@ + tile_text(t),
{
    push_text(s, "TileIndex { x: ");
    push_decimal(s, t.x as u64);
    push_text(s, ", y: ");
    push_decimal(s, t.y as u64);
    push_text(s, " }");
    proof {
        assert(s@ =~= old(s)@ + tile_text(t));
    }
}

/// Appends the rendering of a vehicle state.
pub fn push_state(s: &mut String, st: VehicleState)
    ensures
        final(s)@ == old(s)@ + state_text(st),
{
    match st {
        VehicleState::Idle => push_text(s, "Idle"),
        VehicleState::Traveling => push_text(s, "Traveling"),
        VehicleState::Waiting(n) => push_tuple(s, "Waiting", n as u64),
        VehicleState::Loading => push_text(s, "Loading"),
    }
}

/// Appends the rendering of a cargo list.
pub fn push_cargo(s: &mut String, c: &Vec<(CargoType, CargoAmount)>)
    ensures
        final(s)@ == old(s)@ + cargo_text(c@),
{
    push_text(s, "[");
    let ghost start = s@;
    let mut i: usize = 0;
    while i < c.len()
        invariant
            i <= c@.len(),
            s@ == start + cargo_items_text(c@.subrange(0, i as int)),
        decreases c@.len() - i,
    {
        let ghost pre = s@;
        if i > 0 {
            push_text(s, ", ");
        }
        push_text(s, "(");
        push_tuple(s, "CargoType", c[i].0.0 as u64);
        push_text(s, ", ");
        push_tuple(s, "CargoAmount", c[i].1.0 as u64);
        push_text(s, ")");
        proof {
            let sub = c@.subrange(0, i + 1);
            assert(sub.drop_last() =~= c@.subrange(0, i as int));
            assert(sub.last() == c@[i as int]);
            if i == 0 {
                assert(sub.len() == 1);
                assert(sub[0] == c@[0]);
                assert(cargo_items_text(c@.subrange(0, 0)) == Seq::<char>::empty());
            }
            assert(s@ =~= start + cargo_items_text(sub));
        }
        i = i + 1;
    }
    push_text(s, "]");
    proof {
        assert(c@.subrange(0, i as int) =~= c@);
        assert(s@ =~= old(s)@ + cargo_text(c@));
    }
}

} // verus!
