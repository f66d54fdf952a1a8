//! The pins of the bus, and how they are set.

use vstd::prelude::*;

use crate::types::BusWidth;

verus! {

/// A pin of the bus.
#[derive(Clone, Copy, Debug, PartialEq, Eq, Structural)]
pub enum Pin {
    /// The clock
    Ck,
    /// Commands and responses
    Cmd,
    /// Data
    D0,
    D1,
    D2,
    D3,
}

/// How a pin that belongs to a peripheral drives its line.
#[derive(Clone, Copy, Debug, PartialEq, Eq, Structural)]
pub enum AFType {
    OutputPushPull,
}

/// What a line is pulled to while nothing drives it.
#[derive(Clone, Copy, Debug, PartialEq, Eq, Structural)]
pub enum Pull {
    Nowhere,
    Up,
}

/// How fast a pin drives its line.
#[derive(Clone, Copy, Debug, PartialEq, Eq, Structural)]
pub enum Speed {
    VeryHigh,
}

/// One change to a pin.
#[derive(Clone, Copy, Debug, PartialEq, Eq, Structural)]
pub enum PinChange {
    /// Gives the pin to the peripheral
    Function(Pin, AFType, Pull),
    /// Sets its speed
    Speed(Pin, Speed),
    /// Takes it from the peripheral
    Disconnect(Pin),
}

/// Giving a pin to the peripheral: all lines are pulled up but for the clock.
pub open spec fn function_of(pin: Pin) -> PinChange {
    PinChange::Function(
        pin,
        AFType::OutputPushPull,
        if pin == Pin::Ck {
            Pull::Nowhere
        } else {
            Pull::Up
        },
    )
}

/// Setting the speed of a pin.
pub open spec fn speed_of(pin: Pin) -> PinChange {
    PinChange::Speed(pin, Speed::VeryHigh)
}

/// Setting all pins: each is given to the peripheral, then the speed of each is set.
pub open spec fn configuring(pins: Seq<Pin>) -> Seq<PinChange> {
    pins.map_values(|p: Pin| function_of(p)) + pins.map_values(|p: Pin| speed_of(p))
}

/// Taking all pins from the peripheral.
pub open spec fn deconfiguring(pins: Seq<Pin>) -> Seq<PinChange> {
    pins.map_values(|p: Pin| PinChange::Disconnect(p))
}

/// Every pin is first given to the peripheral and then made fast, all of them given before any is
/// made fast; every line but the clock is pulled up. Every pin is given back once, and in that
/// order.
pub proof fn law_every_pin_is_set(pins: Seq<Pin>, i: int)
    requires
        0 <= i < pins.len(),
    ensures
        configuring(pins).len() == 2 * pins.len(),
        configuring(pins)[i] matches PinChange::Function(p, af, pull) && p == pins[i] && af
            == AFType::OutputPushPull && (pull == Pull::Up <==> p != Pin::Ck),
        configuring(pins)[pins.len() + i] == PinChange::Speed(pins[i], Speed::VeryHigh),
        deconfiguring(pins).len() == pins.len(),
        deconfiguring(pins)[i] == PinChange::Disconnect(pins[i]),
{
}

/// Sets pins.
pub fn configure_pins(pins: &Vec<Pin>) -> (changes: Vec<PinChange>)
    ensures
        changes@ == configuring(pins@),
{
    let mut changes: Vec<PinChange> = Vec::new();
    let mut i: usize = 0;
    while i < pins.len()
        invariant
            i <= pins.len(),
            changes@ == pins@.take(i as int).map_values(|p: Pin| function_of(p)),
        decreases pins.len() - i,
    {
        let pull = if pins[i] == Pin::Ck {
            Pull::Nowhere
        } else {
            Pull::Up
        };
        changes.push(PinChange::Function(pins[i], AFType::OutputPushPull, pull));
        assert(pins@.take(i + 1) =~= pins@.take(i as int).push(pins@[i as int]));
        i = i + 1;
        assert(changes@ =~= pins@.take(i as int).map_values(|p: Pin| function_of(p)));
    }
    assert(pins@.take(pins.len() as int) =~= pins@);
    let ghost functions = changes@;
    let mut j: usize = 0;
    while j < pins.len()
        invariant
            j <= pins.len(),
            changes@ == functions + pins@.take(j as int).map_values(|p: Pin| speed_of(p)),
        decreases pins.len() - j,
    {
        changes.push(PinChange::Speed(pins[j], Speed::VeryHigh));
        assert(pins@.take(j + 1) =~= pins@.take(j as int).push(pins@[j as int]));
        j = j + 1;
        assert(changes@ =~= functions + pins@.take(j as int).map_values(|p: Pin| speed_of(p)));
    }
    changes
}

/// Takes pins from the peripheral.
pub fn deconfigure_pins(pins: &Vec<Pin>) -> (changes: Vec<PinChange>)
    ensures
        changes@ == deconfiguring(pins@),
{
    let mut changes: Vec<PinChange> = Vec::new();
    let mut i: usize = 0;
    while i < pins.len()
        invariant
            i <= pins.len(),
            changes@ == deconfiguring(pins@.take(i as int)),
        decreases pins.len() - i,
    {
        changes.push(PinChange::Disconnect(pins[i]));
        assert(pins@.take(i + 1) =~= pins@.take(i as int).push(pins@[i as int]));
        i = i + 1;
        assert(changes@ =~= deconfiguring(pins@.take(i as int)));
    }
    assert(pins@.take(pins.len() as int) =~= pins@);
    changes
}

/// The data pins among some pins.
pub open spec fn data_pins(pins: Seq<Pin>) -> Seq<Pin> {
    pins.filter(|p: Pin| p == Pin::D0 || p == Pin::D1 || p == Pin::D2 || p == Pin::D3)
}

/// The pins that a host has for a card.
pub trait Pins {
    /// The pins, in the order in which they are set.
    spec fn pins_spec() -> Seq<Pin>;

    /// The pins, in the order in which they are set.
    fn pins() -> (pins: Vec<Pin>)
        ensures
            pins@ == Self::pins_spec(),
    ;

    /// The width of the bus: the number of data pins.
    fn bus_width() -> (w: BusWidth)
        ensures
            w.line_count() == data_pins(Self::pins_spec()).len(),
    ;

    /// The changes that set the pins up.
    fn configure() -> (changes: Vec<PinChange>)
        ensures
            changes@ == configuring(Self::pins_spec()),
    ;

    /// The changes that give the pins back.
    fn deconfigure() -> (changes: Vec<PinChange>)
        ensures
            changes@ == deconfiguring(Self::pins_spec()),
    ;
}

/// A clock, a command line and four data lines.
pub struct FourLines;

/// A clock, a command line and one data line.
pub struct OneLine;

impl Pins for FourLines {
    open spec fn pins_spec() -> Seq<Pin> {
        seq![Pin::Ck, Pin::Cmd, Pin::D0, Pin::D1, Pin::D2, Pin::D3]
    }

    fn pins() -> (pins: Vec<Pin>) {
        let pins = vec![Pin::Ck, Pin::Cmd, Pin::D0, Pin::D1, Pin::D2, Pin::D3];
        assert(pins@ =~= Self::pins_spec());
        pins
    }

    fn bus_width() -> (w: BusWidth)
        ensures
            w == BusWidth::Four,
    {
        proof {
            let s = Self::pins_spec();
            reveal_with_fuel(Seq::filter, 7);
            assert(s.drop_last() =~= seq![Pin::Ck, Pin::Cmd, Pin::D0, Pin::D1, Pin::D2]);
            assert(s.drop_last().drop_last() =~= seq![Pin::Ck, Pin::Cmd, Pin::D0, Pin::D1]);
            assert(s.drop_last().drop_last().drop_last() =~= seq![Pin::Ck, Pin::Cmd, Pin::D0]);
            assert(s.drop_last().drop_last().drop_last().drop_last() =~= seq![Pin::Ck, Pin::Cmd]);
            assert(seq![Pin::Ck, Pin::Cmd].drop_last() =~= seq![Pin::Ck]);
            assert(data_pins(s) =~= seq![Pin::D0, Pin::D1, Pin::D2, Pin::D3]);
        }
        BusWidth::Four
    }

    fn configure() -> (changes: Vec<PinChange>) {
        configure_pins(&Self::pins())
    }

    fn deconfigure() -> (changes: Vec<PinChange>) {
        deconfigure_pins(&Self::pins())
    }
}

impl Pins for OneLine {
    open spec fn pins_spec() -> Seq<Pin> {
        seq![Pin::Ck, Pin::Cmd, Pin::D0]
    }

    fn pins() -> (pins: Vec<Pin>) {
        let pins = vec![Pin::Ck, Pin::Cmd, Pin::D0];
        assert(pins@ =~= Self::pins_spec());
        pins
    }

    fn bus_width() -> (w: BusWidth)
        ensures
            w == BusWidth::One,
    {
        proof {
            let s = Self::pins_spec();
            reveal_with_fuel(Seq::filter, 4);
            assert(s.drop_last() =~= seq![Pin::Ck, Pin::Cmd]);
            assert(s.drop_last().drop_last() =~= seq![Pin::Ck]);
            assert(data_pins(s) =~= seq![Pin::D0]);
        }
        BusWidth::One
    }

    fn configure() -> (changes: Vec<PinChange>) {
        configure_pins(&Self::pins())
    }

    fn deconfigure() -> (changes: Vec<PinChange>) {
        deconfigure_pins(&Self::pins())
    }
}

/// Both hosts have a clock, a command line and the first data line; one has the three more lines,
/// and no pin stands for two of them.
pub proof fn law_hosts_have_their_lines(pin: Pin)
    ensures
        FourLines::pins_spec().contains(pin),
        OneLine::pins_spec().contains(pin) <==> pin == Pin::Ck || pin == Pin::Cmd || pin == Pin::D0,
        FourLines::pins_spec().no_duplicates(),
        OneLine::pins_spec().no_duplicates(),
{
    let four = FourLines::pins_spec();
    let one = OneLine::pins_spec();
    assert(four[0] == Pin::Ck && four[1] == Pin::Cmd && four[2] == Pin::D0);
    assert(four[3] == Pin::D1 && four[4] == Pin::D2 && four[5] == Pin::D3);
    assert(one[0] == Pin::Ck && one[1] == Pin::Cmd && one[2] == Pin::D0);
}

} // verus!
