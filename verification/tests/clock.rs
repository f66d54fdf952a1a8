use sdmmc::clock::clk_div;
use sdmmc::inner::SdmmcInner;
use sdmmc::registers::{Clkcr, RegWrite};
use sdmmc::script::{Step, Wait};
use sdmmc::types::{BusWidth, Error, Hertz, Version};

#[test]
fn first_revision_divides_by_two_at_least() {
    assert_eq!(clk_div(Version::V1, Hertz(48_000_000), 48_000_000), Ok((0, Hertz(24_000_000))));
    assert_eq!(clk_div(Version::V1, Hertz(48_000_000), 100_000_000), Ok((0, Hertz(24_000_000))));
}

#[test]
fn first_revision_identification_clock() {
    assert_eq!(clk_div(Version::V1, Hertz(48_000_000), 400_000), Ok((118, Hertz(400_000))));
}

#[test]
fn first_revision_never_exceeds_the_clock_asked_for() {
    assert_eq!(clk_div(Version::V1, Hertz(50), 20), Ok((1, Hertz(16))));
    assert_eq!(clk_div(Version::V1, Hertz(50_000_000), 20_000_000), Ok((1, Hertz(16_666_666))));
}

#[test]
fn first_revision_counts_in_whole_hertz() {
    let kernel = Hertz(100_000_001);
    assert_eq!(clk_div(Version::V1, kernel, 50_000_000), Ok((0, Hertz(50_000_000))));
    assert_eq!(clk_div(Version::V1, kernel, 49_999_999), Ok((1, Hertz(33_333_333))));
    assert_eq!(clk_div(Version::V1, Hertz(600), 3), Ok((198, Hertz(3))));
    assert_eq!(clk_div(Version::V1, Hertz(799), 3), Err(Error::BadClock));
    assert_eq!(clk_div(Version::V1, Hertz(602), 3), Ok((198, Hertz(3))));
    // The other revision does not round
    assert_eq!(clk_div(Version::V2, kernel, 50_000_000), Ok((2, Hertz(25_000_000))));
}

#[test]
fn first_revision_ends_at_its_last_divisor() {
    assert_eq!(clk_div(Version::V1, Hertz(257), 1), Ok((255, Hertz(1))));
    assert_eq!(clk_div(Version::V1, Hertz(258), 1), Err(Error::BadClock));
}

#[test]
fn second_revision_takes_the_kernel_clock_undivided() {
    assert_eq!(clk_div(Version::V2, Hertz(20_000_000), 25_000_000), Ok((0, Hertz(20_000_000))));
    assert_eq!(clk_div(Version::V2, Hertz(25_000_000), 25_000_000), Ok((0, Hertz(25_000_000))));
}

#[test]
fn second_revision_divides_by_even_numbers() {
    assert_eq!(clk_div(Version::V2, Hertz(200_000_000), 25_000_000), Ok((4, Hertz(25_000_000))));
    assert_eq!(clk_div(Version::V2, Hertz(75_000_000), 25_000_000), Ok((2, Hertz(18_750_000))));
    assert_eq!(clk_div(Version::V2, Hertz(25_000_001), 25_000_000), Ok((1, Hertz(12_500_000))));
}

#[test]
fn second_revision_ends_at_its_last_divisor() {
    assert_eq!(clk_div(Version::V2, Hertz(2046), 1), Ok((1023, Hertz(1))));
    assert_eq!(clk_div(Version::V2, Hertz(2047), 1), Err(Error::BadClock));
}

#[test]
fn the_greatest_kernel_clock_does_not_overflow() {
    assert_eq!(clk_div(Version::V2, Hertz(u32::MAX), u32::MAX), Ok((0, Hertz(u32::MAX))));
    assert_eq!(clk_div(Version::V1, Hertz(u32::MAX), 1), Err(Error::BadClock));
}

#[test]
fn smaller_divisors_are_all_too_fast() {
    for ker in [7u32, 100, 999, 1000, 1001, 2046] {
        for want in [1u32, 3, 10, 99, 2000] {
            for version in [Version::V1, Version::V2] {
                let step = |d: u32| match version {
                    Version::V1 => d + 2,
                    Version::V2 => {
                        if d == 0 {
                            1
                        } else {
                            2 * d
                        }
                    }
                };
                if let Ok((d, f)) = clk_div(version, Hertz(ker), want) {
                    assert_eq!(f, Hertz(ker / step(d as u32)));
                    assert!(f.0 <= want);
                    for e in 0..d as u32 {
                        assert!(ker > want * step(e));
                    }
                }
            }
        }
    }
}

#[test]
fn setting_the_clock_waits_for_both_paths() {
    let inner = SdmmcInner { version: Version::V2 };
    let mut clock = Hertz(400_000);
    let steps =
        inner.clkcr_set_clkdiv(25_000_000, BusWidth::Four, Hertz(200_000_000), &mut clock).unwrap();
    assert_eq!(steps, vec![Step::AwaitIdle(Wait::Both), Step::Write(RegWrite::Clkdiv(4))]);
    assert_eq!(clock, Hertz(25_000_000));
}

#[test]
fn the_bus_keeps_to_its_bandwidth() {
    for (version, ker, freq) in [
        (Version::V1, 48_000_000u32, 25_000_000u32),
        (Version::V2, 200_000_000, 50_000_000),
        (Version::V2, 25_000_000, 25_000_000),
    ] {
        let inner = SdmmcInner { version };
        let mut clock = Hertz(0);
        inner.clkcr_set_clkdiv(freq, BusWidth::Four, Hertz(ker), &mut clock).unwrap();
        assert!(ker as u64 > 3 * (clock.0 as u64 * 4) / 32);
    }
}

#[test]
fn a_clock_that_cannot_be_had_leaves_the_record_alone() {
    let inner = SdmmcInner { version: Version::V1 };
    let mut clock = Hertz(400_000);
    let r = inner.clkcr_set_clkdiv(1, BusWidth::One, Hertz(48_000_000), &mut clock);
    assert_eq!(r, Err(Error::BadClock));
    assert_eq!(clock, Hertz(400_000));
}

#[test]
fn setting_up_starts_slow_and_without_power() {
    let inner = SdmmcInner { version: Version::V1 };
    let (steps, clock) = inner.new_inner(Hertz(48_000_000));
    assert_eq!(clock, Hertz(400_000));
    assert_eq!(
        steps,
        vec![
            Step::Write(RegWrite::Clkcr(Clkcr {
                widbus: 0,
                clkdiv: 118,
                pwrsav: false,
                negedge: false,
                hwfc_en: true,
                clken: true,
            })),
            Step::Write(RegWrite::Power(0)),
        ]
    );
    let (steps, clock) = SdmmcInner { version: Version::V2 }.new_inner(Hertz(200_000_000));
    assert_eq!(clock, Hertz(400_000));
    assert_eq!(
        steps[0],
        Step::Write(RegWrite::Clkcr(Clkcr {
            widbus: 0,
            clkdiv: 250,
            pwrsav: false,
            negedge: false,
            hwfc_en: true,
            clken: false,
        }))
    );
}
