//! What holds of a device over all that is done with it.

use vstd::prelude::*;

use crate::blocks::{ReadBlocksState, WriteBlocksState};
use crate::card::CardModel;
use crate::clock::{
    card_clock, clk_div_spec, divides_well, law_clk_div, law_clkdiv_keeps_limit,
};
use crate::device::DeviceModel;
use crate::effect::{
    law_abandoned_transfer_lets_go, law_transfer_keeps_settings,
    lemma_abandoned_transfer_rests, lemma_rest_keeps_settings, replay_run, replay_transfer, Hw,
};
use crate::init::{InitState, Stage};
use crate::init_laws::{
    law_abandoned_init_lets_go, law_clock_is_on_record, lemma_abandoned_init_rests,
    lemma_card_kept, Heard, Service,
};
use crate::inner::{SdmmcInner, POWER_OFF};
use crate::link::LinkModel;
use crate::registers::{Action, Reply};
use crate::script::{RunState, Step};
use crate::sent::Sent;
use crate::transfer::{Plan, TransferState};
use crate::types::{Hertz, Version};
use crate::write::WriteState;
use crate::write_laws::{
    law_abandoned_reading_row_lets_go, law_abandoned_write_lets_go,
    law_abandoned_writing_row_lets_go, law_reading_row_keeps_settings, law_write_keeps_settings,
    law_writing_row_keeps_settings, lemma_abandoned_reading_row_rests,
    lemma_abandoned_write_rests, lemma_abandoned_writing_row_rests, same_card, ReadingRow, Writing,
    WritingRow,
};

verus! {

/// What is done with a device.
pub enum Call {
    /// A card is brought into service
    Init(InitState),
    /// Data is moved by a single transfer, such as a block that is read
    Move(Plan),
    /// The block at an address is written
    Write(WriteState, u32),
    /// Blocks are read in a row
    ReadRow(ReadBlocksState),
    /// Blocks are written in a row
    WriteRow(WriteBlocksState),
}

/// A call, the replies to it, and the replies to what sets the peripheral to rest where the call
/// was given up.
pub struct Dealing {
    pub call: Call,
    pub replies: Seq<Reply>,
    pub more: Seq<Reply>,
}

/// A device and the peripheral that it drives.
pub struct Host {
    pub inner: SdmmcInner,
    pub ker_ck: Hertz,
    pub link: LinkModel,
    pub hw: Hw,
}

impl Host {
    /// The clock on record is the one that the divisor gives.
    pub open spec fn clock_on_record(self) -> bool {
        self.link.clock == card_clock(self.inner.version, self.ker_ck, self.hw.clkdiv as nat)
    }

    /// A card about to be brought into service here.
    pub open spec fn service(self, init: InitState) -> Service {
        Service {
            init,
            link: self.link,
            hw: self.hw,
            heard: Heard::nothing(),
            sent: Sent { argument: 0, commands: Seq::empty() },
        }
    }

    /// The host with its peripheral after a script that sets it to rest.
    pub open spec fn rested(self, steps: Seq<Step>, more: Seq<Reply>) -> Host {
        Host { hw: replay_run(RunState::start(self.inner, steps), self.hw, more).1, ..self }
    }

    /// The host after an attempt to bring a card into service.
    pub open spec fn after_init(self, init: InitState, d: Dealing) -> Host {
        let s = self.service(init).replay(d.replies);
        Host { link: s.link, hw: s.hw, ..self }.rested(s.init.abandon_steps(), d.more)
    }

    /// The host after a transfer.
    pub open spec fn after_move(self, plan: Plan, d: Dealing) -> Host {
        let (t, hw) = replay_transfer(TransferState::start(self.inner, plan), self.hw, d.replies);
        Host { hw, ..self }.rested(t.abandon_steps(), d.more)
    }

    /// The host with this card on record.
    pub open spec fn with_card(self, card: CardModel) -> Host {
        Host { link: LinkModel { card: Some(card), ..self.link }, ..self }
    }

    /// The host after a block was written to a card.
    pub open spec fn after_write(self, write: WriteState, card: CardModel, d: Dealing) -> Host {
        let s = Writing { write, card, hw: self.hw }.replay(d.replies);
        Host { hw: s.hw, ..self.with_card(s.card) }.rested(s.write.abandon_steps(), d.more)
    }

    /// The host after blocks were read in a row.
    pub open spec fn after_read_row(self, blocks: ReadBlocksState, d: Dealing) -> Host {
        let s = ReadingRow { blocks, hw: self.hw, done: 0 }.replay(d.replies);
        Host { hw: s.hw, ..self }.rested(s.blocks.abandon_steps(), d.more)
    }

    /// The host after blocks were written to a card in a row.
    pub open spec fn after_write_row(
        self,
        blocks: WriteBlocksState,
        card: CardModel,
        d: Dealing,
    ) -> Host {
        let s = WritingRow { blocks, card, hw: self.hw, done: 0 }.replay(d.replies);
        Host { hw: s.hw, ..self.with_card(s.card) }.rested(s.blocks.abandon_steps(), d.more)
    }

    /// The host as a dealing leaves it. What is written without a card on record is not written.
    pub open spec fn after(self, d: Dealing) -> Host {
        match d.call {
            Call::Init(init) => self.after_init(init, d),
            Call::Move(plan) => self.after_move(plan, d),
            Call::Write(write, _) => match self.link.card {
                Some(card) => self.after_write(write, card, d),
                None => self,
            },
            Call::ReadRow(blocks) => self.after_read_row(blocks, d),
            Call::WriteRow(blocks) => match self.link.card {
                Some(card) => self.after_write_row(blocks, card, d),
                None => self,
            },
        }
    }

    /// The host as a row of dealings leaves it.
    pub open spec fn after_all(self, dealings: Seq<Dealing>) -> Host
        decreases dealings.len(),
    {
        if dealings.len() == 0 {
            self
        } else {
            self.after_all(dealings.drop_last()).after(dealings.last())
        }
    }

    /// The call begins at its beginning, and is one for this host.
    pub open spec fn begins(self, call: Call) -> bool {
        match call {
            Call::Init(init) => {
                &&& init.valid()
                &&& init == InitState::start(
                    self.inner,
                    Hertz(init.freq),
                    init.bus_width,
                    self.ker_ck,
                    init.timeout,
                )
            },
            Call::Move(_) => true,
            Call::Write(write, address) => write == WriteState::start(
                self.inner,
                address,
                write.timeout,
            ),
            Call::ReadRow(blocks) => blocks == ReadBlocksState::begin(
                self.inner,
                blocks.capacity,
                blocks.timeout,
                blocks.start,
                blocks.count,
            ),
            Call::WriteRow(blocks) => blocks == WriteBlocksState::begin(
                self.inner,
                blocks.capacity,
                blocks.timeout,
                blocks.start,
                blocks.count,
            ),
        }
    }

    /// A call with this action due, on a peripheral like this, has come to its end: it is over, or
    /// it slept when it was given up and the peripheral was then set to rest.
    pub open spec fn closed(
        self,
        action: Action,
        hw: Hw,
        steps: Seq<Step>,
        more: Seq<Reply>,
    ) -> bool {
        &&& action is Done || action is Suspend
        &&& !replay_run(RunState::start(self.inner, steps), hw, more).0.running()
    }

    /// An attempt to bring a card into service has come to its end.
    pub open spec fn ends_init(self, init: InitState, d: Dealing) -> bool {
        let s = self.service(init).replay(d.replies);
        self.closed(s.init.action(), s.hw, s.init.abandon_steps(), d.more)
    }

    /// A transfer has come to its end.
    pub open spec fn ends_move(self, plan: Plan, d: Dealing) -> bool {
        let (t, hw) = replay_transfer(TransferState::start(self.inner, plan), self.hw, d.replies);
        self.closed(t.action(), hw, t.abandon_steps(), d.more)
    }

    /// A write has come to its end.
    pub open spec fn ends_write(self, write: WriteState, card: CardModel, d: Dealing) -> bool {
        let s = Writing { write, card, hw: self.hw }.replay(d.replies);
        self.closed(s.write.action(), s.hw, s.write.abandon_steps(), d.more)
    }

    /// Reading in a row has come to its end.
    pub open spec fn ends_read_row(self, blocks: ReadBlocksState, d: Dealing) -> bool {
        let s = ReadingRow { blocks, hw: self.hw, done: 0 }.replay(d.replies);
        self.closed(s.blocks.action(), s.hw, s.blocks.abandon_steps(), d.more)
    }

    /// Writing in a row has come to its end.
    pub open spec fn ends_write_row(
        self,
        blocks: WriteBlocksState,
        card: CardModel,
        d: Dealing,
    ) -> bool {
        let s = WritingRow { blocks, card, hw: self.hw, done: 0 }.replay(d.replies);
        self.closed(s.blocks.action(), s.hw, s.blocks.abandon_steps(), d.more)
    }

    /// The dealing has come to its end.
    pub open spec fn ends(self, d: Dealing) -> bool {
        match d.call {
            Call::Init(init) => self.ends_init(init, d),
            Call::Move(plan) => self.ends_move(plan, d),
            Call::Write(write, _) => self.link.card matches Some(card) ==> self.ends_write(
                write,
                card,
                d,
            ),
            Call::ReadRow(blocks) => self.ends_read_row(blocks, d),
            Call::WriteRow(blocks) => self.link.card matches Some(card) ==> self.ends_write_row(
                blocks,
                card,
                d,
            ),
        }
    }

    /// Each dealing of a row begins where the one before it has come to its end.
    pub open spec fn in_turn(self, dealings: Seq<Dealing>) -> bool
        decreases dealings.len(),
    {
        dealings.len() == 0 || {
            let before = self.after_all(dealings.drop_last());
            &&& self.in_turn(dealings.drop_last())
            &&& before.begins(dealings.last().call)
            &&& before.ends(dealings.last())
        }
    }

    /// Between dealings nothing moves data, and the clock on record is the one that is set.
    pub open spec fn between(self) -> bool {
        self.hw.stopped() && self.clock_on_record()
    }
}

proof fn lemma_between_init(h: Host, init: InitState, d: Dealing)
    requires
        h.between(),
        h.begins(Call::Init(init)),
        h.ends_init(init, d),
    ensures
        h.after_init(init, d).between(),
{
    let start = h.service(init);
    let s = start.replay(d.replies);
    assert(start.ready());
    lemma_abandoned_init_rests(start, d.replies);
    law_clock_is_on_record(start, d.replies);
    law_abandoned_init_lets_go(start, d.replies, d.more);
    lemma_rest_keeps_settings(h.inner, s.init.abandon_steps(), s.hw, d.more);
}

proof fn lemma_between_move(h: Host, plan: Plan, d: Dealing)
    requires
        h.between(),
        h.ends_move(plan, d),
    ensures
        h.after_move(plan, d).between(),
{
    let (t, hw) = replay_transfer(TransferState::start(h.inner, plan), h.hw, d.replies);
    law_transfer_keeps_settings(h.inner, plan, h.hw, d.replies);
    law_abandoned_transfer_lets_go(h.inner, plan, h.hw, d.replies, d.more);
    lemma_abandoned_transfer_rests(h.inner, plan, h.hw, d.replies);
    lemma_rest_keeps_settings(h.inner, t.abandon_steps(), hw, d.more);
}

proof fn lemma_between_write(h: Host, write: WriteState, address: u32, card: CardModel, d: Dealing)
    requires
        h.between(),
        h.begins(Call::Write(write, address)),
        h.ends_write(write, card, d),
    ensures
        h.after_write(write, card, d).between(),
{
    let start = Writing { write, card, hw: h.hw };
    let s = start.replay(d.replies);
    assert(start.ready(address));
    lemma_abandoned_write_rests(start, address, d.replies);
    law_write_keeps_settings(start, address, d.replies);
    law_abandoned_write_lets_go(start, address, d.replies, d.more);
    lemma_rest_keeps_settings(h.inner, s.write.abandon_steps(), s.hw, d.more);
}

proof fn lemma_between_read_row(h: Host, blocks: ReadBlocksState, d: Dealing)
    requires
        h.between(),
        h.begins(Call::ReadRow(blocks)),
        h.ends_read_row(blocks, d),
    ensures
        h.after_read_row(blocks, d).between(),
{
    let start = ReadingRow { blocks, hw: h.hw, done: 0 };
    let s = start.replay(d.replies);
    assert(start.ready());
    lemma_abandoned_reading_row_rests(start, d.replies);
    law_reading_row_keeps_settings(start, d.replies);
    law_abandoned_reading_row_lets_go(start, d.replies, d.more);
    lemma_rest_keeps_settings(h.inner, s.blocks.abandon_steps(), s.hw, d.more);
}

proof fn lemma_between_write_row(h: Host, blocks: WriteBlocksState, card: CardModel, d: Dealing)
    requires
        h.between(),
        h.begins(Call::WriteRow(blocks)),
        h.ends_write_row(blocks, card, d),
    ensures
        h.after_write_row(blocks, card, d).between(),
{
    let start = WritingRow { blocks, card, hw: h.hw, done: 0 };
    let s = start.replay(d.replies);
    assert(start.ready());
    lemma_abandoned_writing_row_rests(start, d.replies);
    law_writing_row_keeps_settings(start, d.replies);
    law_abandoned_writing_row_lets_go(start, d.replies, d.more);
    lemma_rest_keeps_settings(h.inner, s.blocks.abandon_steps(), s.hw, d.more);
}

/// A dealing that has come to its end leaves the host as it was between dealings.
proof fn lemma_between(h: Host, d: Dealing)
    requires
        h.between(),
        h.begins(d.call),
        h.ends(d),
    ensures
        h.after(d).between(),
{
    match d.call {
        Call::Init(init) => lemma_between_init(h, init, d),
        Call::Move(plan) => lemma_between_move(h, plan, d),
        Call::Write(write, address) => {
            if h.link.card is Some {
                lemma_between_write(h, write, address, h.link.card->0, d);
            }
        },
        Call::ReadRow(blocks) => lemma_between_read_row(h, blocks, d),
        Call::WriteRow(blocks) => {
            if h.link.card is Some {
                lemma_between_write_row(h, blocks, h.link.card->0, d);
            }
        },
    }
}

/// Between any two dealings with a device, whatever they were and however they went, the clock on
/// record is the clock that the card gets, and nothing moves data.
pub proof fn law_clock_is_always_on_record(host: Host, dealings: Seq<Dealing>)
    requires
        host.between(),
        host.in_turn(dealings),
    ensures
        host.after_all(dealings).clock_on_record(),
        host.after_all(dealings).hw.stopped(),
    decreases dealings.len(),
{
    if dealings.len() > 0 {
        law_clock_is_always_on_record(host, dealings.drop_last());
        lemma_between(host.after_all(dealings.drop_last()), dealings.last());
    }
}

/// Once a peripheral was set up, the divisor is the one that was found for it, the card has no
/// power, and a single data line is used.
pub proof fn law_new_device_is_set_up(
    inner: SdmmcInner,
    clkdiv: u16,
    hw: Hw,
    replies: Seq<Reply>,
)
    ensures
        ({
            let (r, after) = replay_run(
                RunState::start(inner, inner.new_steps(clkdiv)),
                hw,
                replies,
            );
            &&& r.steps == inner.new_steps(clkdiv)
            &&& r.failed is None
            &&& r.at >= 1 ==> after.clkdiv == clkdiv && after.widbus == 0
            &&& !r.running() ==> after.power == POWER_OFF
            &&& hw.stopped() ==> after.stopped()
        }),
    decreases replies.len(),
{
    if replies.len() > 0 {
        law_new_device_is_set_up(inner, clkdiv, hw, replies.drop_last());
    }
}

/// A new device has its clock at 400 kHz at most, by the divisor that is right for that.
pub proof fn law_new_device_is_slow(version: Version, kernel_clk: Hertz)
    ensures
        match clk_div_spec(version, kernel_clk, 400_000) {
            Ok((d, f)) => divides_well(
                version,
                kernel_clk.0 as int,
                400_000,
                d as int,
                f.0 as int,
            ) && f.0 <= 400_000,
            Err(_) => kernel_clk.0 > 400_000 * 257,
        },
{
    law_clk_div(version, kernel_clk, 400_000);
    law_clkdiv_keeps_limit(version, kernel_clk, 400_000);
}

/// A device that is given a card stays what it is but for the card.
pub proof fn law_card_is_all_that_changes(d: DeviceModel, card: CardModel)
    ensures
        ({
            let n = d.with_card(card);
            &&& n.inner == d.inner
            &&& n.config == d.config
            &&& n.link.clock == d.link.clock
            &&& n.link.signalling == d.link.signalling
            &&& n.link.card == Some(card)
        }),
{
}

/// What a dealing brought into service, if it did.
pub open spec fn served(h: Host, d: Dealing) -> Option<CardModel> {
    match d.call {
        Call::Init(init) => {
            let s = h.service(init).replay(d.replies);
            match s.init.stage {
                Stage::Finished(Ok(_)) => Some(s.init.card),
                _ => None,
            }
        },
        _ => None,
    }
}

/// The card that was brought into service last.
pub open spec fn last_served(h: Host, dealings: Seq<Dealing>) -> Option<CardModel>
    decreases dealings.len(),
{
    if dealings.len() == 0 {
        None
    } else {
        let before = dealings.drop_last();
        match served(h.after_all(before), dealings.last()) {
            Some(card) => Some(card),
            None => last_served(h, before),
        }
    }
}

/// A write changes nothing but the status of the card.
proof fn lemma_write_card(start: Writing, replies: Seq<Reply>)
    ensures
        same_card(start.replay(replies).card, start.card),
    decreases replies.len(),
{
    if replies.len() > 0 {
        lemma_write_card(start, replies.drop_last());
    }
}

/// Writing blocks changes nothing but the status of the card.
proof fn lemma_write_row_card(start: WritingRow, replies: Seq<Reply>)
    ensures
        same_card(start.replay(replies).card, start.card),
    decreases replies.len(),
{
    if replies.len() > 0 {
        lemma_write_row_card(start, replies.drop_last());
    }
}

/// The card on record is the one that was brought into service last, but for its status.
pub open spec fn on_record(card: Option<CardModel>, last: Option<CardModel>) -> bool {
    match (card, last) {
        (Some(c), Some(told)) => same_card(c, told),
        (None, None) => true,
        _ => false,
    }
}

proof fn lemma_on_record(h: Host, last: Option<CardModel>, d: Dealing)
    requires
        on_record(h.link.card, last),
        d.call matches Call::Init(init) ==> !(init.stage is Finished),
    ensures
        on_record(
            h.after(d).link.card,
            match served(h, d) {
                Some(card) => Some(card),
                None => last,
            },
        ),
{
    match d.call {
        Call::Init(init) => lemma_card_kept(h.service(init), d.replies),
        Call::Write(write, _) => {
            if h.link.card is Some {
                lemma_write_card(Writing { write, card: h.link.card->0, hw: h.hw }, d.replies);
            }
        },
        Call::WriteRow(blocks) => {
            if h.link.card is Some {
                lemma_write_row_card(
                    WritingRow { blocks, card: h.link.card->0, hw: h.hw, done: 0 },
                    d.replies,
                );
            }
        },
        _ => {},
    }
}

/// A device that started without a card has one on record exactly when a card has been brought
/// into service since, whatever else was tried or written; and it is the one that was brought into
/// service last, but for its status.
pub proof fn law_card_is_on_record_once_served(host: Host, dealings: Seq<Dealing>)
    requires
        host.link.card is None,
        forall|i: int| 0 <= i < dealings.len() ==> host.begins((#[trigger] dealings[i]).call),
    ensures
        on_record(host.after_all(dealings).link.card, last_served(host, dealings)),
    decreases dealings.len(),
{
    if dealings.len() > 0 {
        let before = dealings.drop_last();
        assert forall|i: int| 0 <= i < before.len() implies host.begins(
            (#[trigger] before[i]).call,
        ) by {
            assert(before[i] == dealings[i]);
        }
        law_card_is_on_record_once_served(host, before);
        assert(host.begins(dealings[dealings.len() - 1].call));
        lemma_on_record(host.after_all(before), last_served(host, before), dealings.last());
    }
}

} // verus!
