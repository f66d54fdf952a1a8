//! Declaring an interrupt: the Rust source of the type that stands for one.

use vstd::prelude::*;

verus! {

/// The name under which the linker knows the handler of an interrupt.
pub open spec fn handler_symbol(name: Seq<char>) -> Seq<char> {
    "__EMBASSY_"@ + name + "_HANDLER"@
}

/// The name under which the linker knows the handler of an interrupt.
pub fn handler_name(name: &str) -> (s: String)
    ensures
        s@ == handler_symbol(name@),
{
    let mut s = String::from_str("__EMBASSY_");
    s.append(name);
    s.append("_HANDLER");
    s
}

/// Interrupts of different names have handlers of different names.
pub proof fn law_handlers_apart(a: Seq<char>, b: Seq<char>)
    requires
        handler_symbol(a) == handler_symbol(b),
    ensures
        a == b,
{
    let p = "__EMBASSY_"@;
    let x = handler_symbol(a);
    let y = handler_symbol(b);
    let q = "_HANDLER"@;
    assert(x.len() == p.len() + a.len() + q.len());
    assert(y.len() == p.len() + b.len() + q.len());
    assert(a =~= x.subrange(p.len() as int, (p.len() + a.len()) as int));
    assert(b =~= y.subrange(p.len() as int, (p.len() + b.len()) as int));
}

/// The type that stands for the interrupt.
pub open spec fn type_source(name: Seq<char>) -> Seq<char> {
    "#[allow(non_camel_case_types)] pub struct "@ + name + "(()); "@
}

/// Its number, its one value, and its handler.
pub open spec fn interrupt_source(name: Seq<char>) -> Seq<char> {
    "unsafe impl ::embassy_cortex_m::interrupt::Interrupt for "@ + name
        + " { fn number(&self) -> u16 { use cortex_m::interrupt::InterruptNumber; let irq = InterruptEnum::"@
        + name
        + "; irq.number() as u16 } unsafe fn steal() -> Self { Self(()) } unsafe fn __handler(&self) -> &'static ::embassy_cortex_m::interrupt::Handler { #[export_name = \""@
        + handler_symbol(name)
        + "\"] static HANDLER: ::embassy_cortex_m::interrupt::Handler = ::embassy_cortex_m::interrupt::Handler::new(); &HANDLER } } "@
}

/// It can be handed over in place of a borrow.
pub open spec fn unborrow_source(name: Seq<char>) -> Seq<char> {
    "unsafe impl ::embassy_hal_common::Unborrow for "@ + name + " { type Target = "@ + name
        + "; unsafe fn unborrow(self) -> "@ + name + " { self } }"@
}

/// A text with gaps, with the same name in each of them.
pub open spec fn filled(pieces: Seq<Seq<char>>, name: Seq<char>) -> Seq<char>
    decreases pieces.len(),
{
    if pieces.len() == 0 {
        Seq::empty()
    } else if pieces.len() == 1 {
        pieces[0]
    } else {
        filled(pieces.drop_last(), name) + name + pieces.last()
    }
}

/// The declaration.
pub open spec fn declaration(name: Seq<char>) -> Seq<char> {
    type_source(name) + interrupt_source(name) + unborrow_source(name)
}

/// The declaration of every interrupt is this text with its name in the gaps.
pub open spec fn declares_all(pieces: Seq<Seq<char>>) -> bool {
    forall|name: Seq<char>| #[trigger] declaration(name) == filled(pieces, name)
}

/// All interrupts are declared alike: the declaration is one text with the name of the interrupt in
/// the same seven places, whatever the name is.
pub proof fn law_interrupts_are_declared_alike()
    ensures
        exists|pieces: Seq<Seq<char>>| pieces.len() == 8 && #[trigger] declares_all(pieces),
{
    let a0 = "#[allow(non_camel_case_types)] pub struct "@;
    let a1 = "(()); "@;
    let b0 = "unsafe impl ::embassy_cortex_m::interrupt::Interrupt for "@;
    let b1 =
        " { fn number(&self) -> u16 { use cortex_m::interrupt::InterruptNumber; let irq = InterruptEnum::"@;
    let b2 =
        "; irq.number() as u16 } unsafe fn steal() -> Self { Self(()) } unsafe fn __handler(&self) -> &'static ::embassy_cortex_m::interrupt::Handler { #[export_name = \""@;
    let b3 =
        "\"] static HANDLER: ::embassy_cortex_m::interrupt::Handler = ::embassy_cortex_m::interrupt::Handler::new(); &HANDLER } } "@;
    let h0 = "__EMBASSY_"@;
    let h1 = "_HANDLER"@;
    let c0 = "unsafe impl ::embassy_hal_common::Unborrow for "@;
    let c1 = " { type Target = "@;
    let c2 = "; unsafe fn unborrow(self) -> "@;
    let c3 = " { self } }"@;
    let pieces = seq![a0, a1 + b0, b1, b2 + h0, h1 + b3 + c0, c1, c2, c3];
    assert forall|name: Seq<char>| #[trigger] declaration(name) == filled(pieces, name) by {
        lemma_filled_eight(a0, a1 + b0, b1, b2 + h0, h1 + b3 + c0, c1, c2, c3, name);
        lemma_regrouped(a0, a1, b0, b1, b2, h0, h1, b3, c0, c1, c2, c3, name);
    }
    assert(declares_all(pieces));
}

proof fn lemma_grouped(x: Seq<char>, y: Seq<char>, z: Seq<char>)
    ensures
        x + (y + z) == x + y + z,
{
    assert(x + (y + z) =~= x + y + z);
}

/// The same text, grouped by its gaps.
proof fn lemma_regrouped(
    a0: Seq<char>,
    a1: Seq<char>,
    b0: Seq<char>,
    b1: Seq<char>,
    b2: Seq<char>,
    h0: Seq<char>,
    h1: Seq<char>,
    b3: Seq<char>,
    c0: Seq<char>,
    c1: Seq<char>,
    c2: Seq<char>,
    c3: Seq<char>,
    n: Seq<char>,
)
    ensures
        (a0 + n + a1) + (b0 + n + b1 + n + b2 + (h0 + n + h1) + b3) + (c0 + n + c1 + n + c2 + n
            + c3) == a0 + n + (a1 + b0) + n + b1 + n + (b2 + h0) + n + (h1 + b3 + c0) + n + c1 + n
            + c2 + n + c3,
{
    let t = a0 + n + a1;
    let h = h0 + n + h1;
    lemma_grouped(t, b0 + n + b1 + n + b2 + h, b3);
    lemma_grouped(t, b0 + n + b1 + n + b2, h);
    lemma_grouped(t, b0 + n + b1 + n, b2);
    lemma_grouped(t, b0 + n + b1, n);
    lemma_grouped(t, b0 + n, b1);
    lemma_grouped(t, b0, n);
    lemma_grouped(a0 + n, a1, b0);
    let u = t + b0 + n + b1 + n;
    lemma_grouped(u + b2, h0 + n, h1);
    lemma_grouped(u + b2, h0, n);
    lemma_grouped(u, b2, h0);
    let w = u + (b2 + h0) + n;
    let m = w + h1 + b3;
    lemma_grouped(m, c0 + n + c1 + n + c2 + n, c3);
    lemma_grouped(m, c0 + n + c1 + n + c2, n);
    lemma_grouped(m, c0 + n + c1 + n, c2);
    lemma_grouped(m, c0 + n + c1, n);
    lemma_grouped(m, c0 + n, c1);
    lemma_grouped(m, c0, n);
    lemma_grouped(w, h1, b3);
    lemma_grouped(w, h1 + b3, c0);
}

/// Eight pieces with seven gaps.
proof fn lemma_filled_eight(
    p0: Seq<char>,
    p1: Seq<char>,
    p2: Seq<char>,
    p3: Seq<char>,
    p4: Seq<char>,
    p5: Seq<char>,
    p6: Seq<char>,
    p7: Seq<char>,
    name: Seq<char>,
)
    ensures
        filled(seq![p0, p1, p2, p3, p4, p5, p6, p7], name) == p0 + name + p1 + name + p2 + name + p3
            + name + p4 + name + p5 + name + p6 + name + p7,
{
    reveal_with_fuel(filled, 8);
    assert(seq![p0, p1, p2, p3, p4, p5, p6, p7].drop_last() =~= seq![p0, p1, p2, p3, p4, p5, p6]);
    assert(seq![p0, p1, p2, p3, p4, p5, p6].drop_last() =~= seq![p0, p1, p2, p3, p4, p5]);
    assert(seq![p0, p1, p2, p3, p4, p5].drop_last() =~= seq![p0, p1, p2, p3, p4]);
    assert(seq![p0, p1, p2, p3, p4].drop_last() =~= seq![p0, p1, p2, p3]);
    assert(seq![p0, p1, p2, p3].drop_last() =~= seq![p0, p1, p2]);
    assert(seq![p0, p1, p2].drop_last() =~= seq![p0, p1]);
    assert(seq![p0, p1].drop_last() =~= seq![p0]);
}

/// The source that declares an interrupt of this name.
pub fn run(name: &str) -> (source: String)
    ensures
        source@ == type_source(name@) + interrupt_source(name@) + unborrow_source(name@),
{
    let handler = handler_name(name);
    let mut source = String::from_str("#[allow(non_camel_case_types)] pub struct ");
    source.append(name);
    source.append("(()); ");
    assert(source@ == type_source(name@));
    source.append("unsafe impl ::embassy_cortex_m::interrupt::Interrupt for ");
    source.append(name);
    source.append(
        " { fn number(&self) -> u16 { use cortex_m::interrupt::InterruptNumber; let irq = InterruptEnum::",
    );
    source.append(name);
    source.append(
        "; irq.number() as u16 } unsafe fn steal() -> Self { Self(()) } unsafe fn __handler(&self) -> &'static ::embassy_cortex_m::interrupt::Handler { #[export_name = \"",
    );
    source.append(handler.as_str());
    source.append(
        "\"] static HANDLER: ::embassy_cortex_m::interrupt::Handler = ::embassy_cortex_m::interrupt::Handler::new(); &HANDLER } } ",
    );
    assert(source@ =~= type_source(name@) + interrupt_source(name@));
    source.append("unsafe impl ::embassy_hal_common::Unborrow for ");
    source.append(name);
    source.append(" { type Target = ");
    source.append(name);
    source.append("; unsafe fn unborrow(self) -> ");
    source.append(name);
    source.append(" { self } }");
    assert(source@ =~= type_source(name@) + interrupt_source(name@) + unborrow_source(name@));
    source
}

} // verus!
