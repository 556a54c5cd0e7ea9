use msc_jit::printf::{msc_printf, PrintStep};

fn chars(text: &str) -> Vec<PrintStep> {
    text.bytes().map(PrintStep::Char).collect()
}

#[test]
fn format_with_two_integers() {
    let steps = msc_printf(b"x=%d y=%d\n", 2);
    let mut expected = chars("x=");
    expected.push(PrintStep::Integer { start: 2, end: 4, slot: 1 });
    expected.extend(chars(" y="));
    expected.push(PrintStep::Integer { start: 7, end: 9, slot: 0 });
    expected.extend(chars("\n"));
    assert_eq!(steps, expected);
}

#[test]
fn plain_text_is_printed_byte_by_byte() {
    assert_eq!(msc_printf(b"Hello, world!\n", 0), chars("Hello, world!\n"));
    assert_eq!(msc_printf(b"", 3), vec![]);
}

#[test]
fn every_integer_conversion() {
    for c in "cdiloxpuX".bytes() {
        assert_eq!(msc_printf(&[b'%', c], 1), vec![PrintStep::Integer { start: 0, end: 2, slot: 0 }]);
    }
}

#[test]
fn every_float_conversion() {
    for c in "feg".bytes() {
        assert_eq!(msc_printf(&[b'%', c], 1), vec![PrintStep::Float { start: 0, end: 2, slot: 0 }]);
    }
}

#[test]
fn width_and_precision_belong_to_the_conversion() {
    assert_eq!(msc_printf(b"%08x", 1), vec![PrintStep::Integer { start: 0, end: 4, slot: 0 }]);
    assert_eq!(msc_printf(b"a%10.3fb", 1), vec![
        PrintStep::Char(b'a'),
        PrintStep::Float { start: 1, end: 7, slot: 0 },
        PrintStep::Char(b'b'),
    ]);
    assert_eq!(msc_printf(b"%.2e", 1), vec![PrintStep::Float { start: 0, end: 4, slot: 0 }]);
    assert_eq!(msc_printf(b"%5.d", 1), vec![PrintStep::Integer { start: 0, end: 4, slot: 0 }]);
}

#[test]
fn arguments_are_taken_right_to_left() {
    assert_eq!(msc_printf(b"%d%f%x", 3), vec![
        PrintStep::Integer { start: 0, end: 2, slot: 2 },
        PrintStep::Float { start: 2, end: 4, slot: 1 },
        PrintStep::Integer { start: 4, end: 6, slot: 0 },
    ]);
    assert_eq!(msc_printf(b"%d", 5), vec![PrintStep::Integer { start: 0, end: 2, slot: 4 }]);
}

#[test]
fn conversion_without_argument_is_reported() {
    assert_eq!(msc_printf(b"%d", 0), vec![PrintStep::Missing { start: 0, end: 2 }]);
    assert_eq!(msc_printf(b"%d %5f", 1), vec![
        PrintStep::Integer { start: 0, end: 2, slot: 0 },
        PrintStep::Char(b' '),
        PrintStep::Missing { start: 3, end: 6 },
    ]);
}

#[test]
fn doubled_percent_prints_one() {
    assert_eq!(msc_printf(b"100%%", 0), vec![
        PrintStep::Char(b'1'),
        PrintStep::Char(b'0'),
        PrintStep::Char(b'0'),
        PrintStep::Char(b'%'),
    ]);
    assert_eq!(msc_printf(b"%%d", 1), vec![PrintStep::Char(b'%'), PrintStep::Char(b'd')]);
}

#[test]
fn unknown_conversions_are_skipped() {
    assert_eq!(msc_printf(b"%s!", 1), vec![PrintStep::Unknown, PrintStep::Char(b'!')]);
    assert_eq!(msc_printf(b"%5%", 1), vec![PrintStep::Unknown]);
    assert_eq!(msc_printf(b"%z%d", 1), vec![PrintStep::Unknown, PrintStep::Integer { start: 2, end: 4, slot: 0 }]);
}

#[test]
fn format_that_ends_in_a_specifier() {
    assert_eq!(msc_printf(b"%", 1), vec![PrintStep::Unknown]);
    assert_eq!(msc_printf(b"a%12", 1), vec![PrintStep::Char(b'a'), PrintStep::Unknown]);
    assert_eq!(msc_printf(b"%1.", 1), vec![PrintStep::Unknown]);
    assert_eq!(msc_printf(b"%1.5", 1), vec![PrintStep::Unknown]);
}
