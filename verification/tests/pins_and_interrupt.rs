use core::str::FromStr;

use proc_macro2::{TokenStream, TokenTree};
use sdmmc::interrupt::{handler_name, run};
use sdmmc::pins::{AFType, FourLines, OneLine, Pin, PinChange, Pins, Pull, Speed};
use sdmmc::types::BusWidth;

#[test]
fn the_width_of_the_bus_is_the_number_of_data_pins() {
    assert_eq!(FourLines::bus_width(), BusWidth::Four);
    assert_eq!(OneLine::bus_width(), BusWidth::One);
    assert_eq!(FourLines::bus_width().lines(), 4);
    assert_eq!(OneLine::bus_width().lines(), 1);
    assert_eq!(BusWidth::Eight.lines(), 8);
    assert_eq!(BusWidth::Unknown.lines(), 0);
}

#[test]
fn three_pins_are_set_function_first() {
    assert_eq!(
        OneLine::configure(),
        vec![
            PinChange::Function(Pin::Ck, AFType::OutputPushPull, Pull::Nowhere),
            PinChange::Function(Pin::Cmd, AFType::OutputPushPull, Pull::Up),
            PinChange::Function(Pin::D0, AFType::OutputPushPull, Pull::Up),
            PinChange::Speed(Pin::Ck, Speed::VeryHigh),
            PinChange::Speed(Pin::Cmd, Speed::VeryHigh),
            PinChange::Speed(Pin::D0, Speed::VeryHigh),
        ]
    );
}

#[test]
fn six_pins_are_set_function_first() {
    let changes = FourLines::configure();
    assert_eq!(changes.len(), 12);
    assert_eq!(changes[0], PinChange::Function(Pin::Ck, AFType::OutputPushPull, Pull::Nowhere));
    assert_eq!(changes[5], PinChange::Function(Pin::D3, AFType::OutputPushPull, Pull::Up));
    assert_eq!(changes[6], PinChange::Speed(Pin::Ck, Speed::VeryHigh));
    assert_eq!(changes[11], PinChange::Speed(Pin::D3, Speed::VeryHigh));
}

#[test]
fn all_pins_are_given_back() {
    assert_eq!(
        FourLines::deconfigure(),
        vec![
            PinChange::Disconnect(Pin::Ck),
            PinChange::Disconnect(Pin::Cmd),
            PinChange::Disconnect(Pin::D0),
            PinChange::Disconnect(Pin::D1),
            PinChange::Disconnect(Pin::D2),
            PinChange::Disconnect(Pin::D3),
        ]
    );
    assert_eq!(OneLine::deconfigure().len(), 3);
}

#[test]
fn the_handler_of_an_interrupt() {
    assert_eq!(handler_name("SDMMC1"), "__EMBASSY_SDMMC1_HANDLER");
    assert_ne!(handler_name("SDMMC1"), handler_name("SDMMC2"));
}

fn walk(stream: TokenStream, out: &mut Vec<String>) {
    for tree in stream {
        match tree {
            TokenTree::Group(g) => {
                out.push(format!("{:?}", g.delimiter()));
                walk(g.stream(), out);
                out.push(String::from("end"));
            }
            other => out.push(other.to_string()),
        }
    }
}

/// The tokens of a text, one after the other, without regard to how they are spaced.
fn tokens(text: &str) -> Vec<String> {
    let mut out = Vec::new();
    walk(TokenStream::from_str(text).unwrap(), &mut out);
    out
}

#[test]
fn the_declaration_of_an_interrupt() {
    let expected = r#"
        #[allow(non_camel_case_types)]
        pub struct EXTI0(());
        unsafe impl ::embassy_cortex_m::interrupt::Interrupt for EXTI0 {
            fn number(&self) -> u16 {
                use cortex_m::interrupt::InterruptNumber;
                let irq = InterruptEnum::EXTI0;
                irq.number() as u16
            }
            unsafe fn steal() -> Self {
                Self(())
            }
            unsafe fn __handler(&self) -> &'static ::embassy_cortex_m::interrupt::Handler {
                #[export_name = "__EMBASSY_EXTI0_HANDLER"]
                static HANDLER: ::embassy_cortex_m::interrupt::Handler = ::embassy_cortex_m::interrupt::Handler::new();
                &HANDLER
            }
        }

        unsafe impl ::embassy_hal_common::Unborrow for EXTI0 {
            type Target = EXTI0;
            unsafe fn unborrow(self) -> EXTI0 {
                self
            }
        }
    "#;
    assert_eq!(tokens(&run("EXTI0")), tokens(expected));
}
