use sdmmc::card::Card;
use sdmmc::cmd::{rca_arg, Cmd, Response};
use sdmmc::types::{CardCapacity, Config, Error, Signalling};
use sdmmc::words::from_words;

fn with_csd(csd: u128) -> Card {
    Card { csd, ..Card::default() }
}

#[test]
fn nothing_is_known_of_a_new_card() {
    let card = Card::default();
    assert_eq!(card.card_type, CardCapacity::SDSC);
    assert_eq!((card.ocr, card.rca, card.cid, card.csd, card.scr), (0, 0, 0, 0, 0));
    assert_eq!(card.status, [0; 16]);
}

#[test]
fn a_high_capacity_card_has_a_size() {
    let card = with_csd(from_words(1074659378, 1532559360, 968064896, 171966712));
    assert!(card.is_countable());
    assert_eq!(card.blocks(), 15126528);
    assert_eq!(card.size(), 15126528 * 512);
}

#[test]
fn a_standard_capacity_card_has_a_size() {
    let card = with_csd((1023u128 << 62) | (7u128 << 47));
    assert!(card.is_countable());
    assert_eq!(card.blocks(), 1024 * 512);
    assert_eq!(card.size(), 1024 * 512 * 512);
    assert_eq!(with_csd(0).blocks(), 4);
}

#[test]
fn an_ultra_capacity_card_may_have_too_many_blocks() {
    let few = with_csd((2u128 << 126) | (0x3F_FFFEu128 << 48));
    assert!(few.is_countable());
    assert_eq!(few.blocks(), 0x3F_FFFF * 1024);
    assert!(!with_csd((2u128 << 126) | (0x3F_FFFFu128 << 48)).is_countable());
    assert!(!with_csd((1u128 << 126) | (0x3F_FFFFu128 << 48)).is_countable());
}

#[test]
fn a_layout_without_meaning_has_no_blocks() {
    let card = with_csd(3u128 << 126);
    assert!(card.is_countable());
    assert_eq!(card.blocks(), 0);
}

#[test]
fn the_commands() {
    let shorts = [
        (Cmd::send_rel_addr(), 3, 0),
        (Cmd::cmd6(2), 6, 2),
        (Cmd::sel_desel_card(9), 7, 9),
        (Cmd::hs_send_ext_csd(0x1AA), 8, 0x1AA),
        (Cmd::card_status(5), 13, 5),
        (Cmd::set_block_length(512), 16, 512),
        (Cmd::read_single_block(77), 17, 77),
        (Cmd::write_single_block(78), 24, 78),
        (Cmd::app_op_cmd(1), 41, 1),
        (Cmd::cmd51(), 51, 0),
        (Cmd::app_cmd(3), 55, 3),
    ];
    for (cmd, number, arg) in shorts {
        assert_eq!(cmd, Cmd::new(number, arg, Response::Short));
    }
    assert_eq!(Cmd::idle(), Cmd::new(0, 0, Response::Absent));
    assert_eq!(Cmd::all_send_cid(), Cmd::new(2, 0, Response::Long));
    assert_eq!(Cmd::send_csd(4), Cmd::new(9, 4, Response::Long));
}

#[test]
fn the_kinds_of_response() {
    assert_eq!(Response::Absent.waitresp(), 0);
    assert_eq!(Response::Short.waitresp(), 1);
    assert_eq!(Response::Long.waitresp(), 3);
}

#[test]
fn an_address_goes_into_the_upper_half() {
    assert_eq!(rca_arg(0x1234), 0x1234_0000);
    assert_eq!(rca_arg(0x5_1234), 0x1234_0000);
}

#[test]
fn defaults() {
    assert_eq!(Config::default().data_transfer_timeout, 5_000_000);
    assert_eq!(Signalling::default(), Signalling::SDR12);
    assert_ne!(Error::Timeout, Error::SoftwareTimeout);
}
