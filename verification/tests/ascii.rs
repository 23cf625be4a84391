use egm96::ascii::{check_header, flip, MIN_LAT_BITS, POINT_COUNT, X_NUM, Y_NUM};
use egm96::compressed::load_embedded_egm96_grid15;
use egm96::error::{GridError, HeaderField};
use egm96::grid::{stencil, Grid, MemoryGrid, Stencil};
use egm96::number::{parse_signed, parse_token, strip_dots_into};
use egm96::text::{first_line_end, next_token, space_at};

const HEADER: &str = "  -90.000000   90.000000     .000000  360.000000     .250000     .250000\n";

fn sample_of(i: usize) -> i32 {
    (i % 200_003) as i32 - 100_000
}

fn token_of(v: i32) -> String {
    let sign = if v < 0 { "-" } else { "" };
    let a = v.unsigned_abs();
    format!("{}{}.{:03}", sign, a / 1000, a % 1000)
}

fn distribution(count: usize) -> String {
    let mut text = String::from(HEADER);
    for i in 0..count {
        text.push_str("   ");
        text.push_str(&token_of(sample_of(i)));
        if i % 8 == 7 {
            text.push_str("\r\n");
        }
    }
    text.push('\n');
    text
}

fn parse_str(t: &str) -> Option<i32> {
    let mut buf = Vec::new();
    parse_token(t.as_bytes(), 0, t.len(), &mut buf)
}

#[test]
fn grid_constants() {
    assert_eq!(X_NUM, 360 * 4 + 1);
    assert_eq!(Y_NUM, 180 * 4 + 1);
    assert_eq!(POINT_COUNT, 1441 * 721);
    assert_eq!(f32::from_bits(MIN_LAT_BITS), -90.0);
    assert_eq!(f32::from_bits(0), 0.0);
}

#[test]
fn tokens_spell_fixed_point_samples() {
    assert_eq!(parse_str("17.162"), Some(17162));
    assert_eq!(parse_str("-29.534"), Some(-29534));
    assert_eq!(parse_str("13.606"), Some(13606));
    assert_eq!(parse_str(".000"), Some(0));
    assert_eq!(parse_str("0.005"), Some(5));
    assert_eq!(parse_str("-0.005"), Some(-5));
    assert_eq!(parse_str("+5"), Some(5));
    assert_eq!(parse_str("-.5"), Some(-5));
    assert_eq!(parse_str(".-5"), Some(-5));
    assert_eq!(parse_str("1.2.3"), Some(123));
    assert_eq!(parse_str("000000000000000000000007"), Some(7));
    assert_eq!(parse_str("2147483.647"), Some(i32::MAX));
    assert_eq!(parse_str("-2147483.648"), Some(i32::MIN));
}

#[test]
fn tokens_that_spell_no_sample() {
    for t in [
        "", ".", "..", "-", "+", "-.", "--5", "+-5", "5-", "1e3", "12a", "a", "2147483.648",
        "-2147483.649", "99999999999999999999", "1,5", "\u{0b}1", "１",
    ] {
        assert_eq!(parse_str(t), None, "{:?}", t);
    }
}

#[test]
fn tokens_agree_with_std() {
    for t in ["0", "-0", "+0", "12", "-12", "2147483647", "2147483648", "-2147483648", "-2147483649", "", "+", "-", "1+", "٣"] {
        assert_eq!(parse_signed(&t.as_bytes().to_vec()), t.parse::<i32>().ok(), "{:?}", t);
    }
}

#[test]
fn dots_are_taken_out() {
    let mut buf = vec![1u8, 2, 3];
    strip_dots_into(b"..1.2.x.", 0, 8, &mut buf);
    assert_eq!(buf, b"12x".to_vec());
    strip_dots_into(b"a.b.c", 1, 4, &mut buf);
    assert_eq!(buf, b"b".to_vec());
}

#[test]
fn lines_end_behind_the_line_feed() {
    assert_eq!(first_line_end(b""), 0);
    assert_eq!(first_line_end(b"abc"), 3);
    assert_eq!(first_line_end(b"abc\n"), 4);
    assert_eq!(first_line_end(b"\nabc\n"), 1);
    assert_eq!(first_line_end(b"ab\r\ncd\n"), 4);
}

#[test]
fn white_space_of_data_is_ascii() {
    let s = b"\t\n\x0b\x0c\r a";
    assert_eq!(space_at(s, 0, 7, false), 1);
    assert_eq!(space_at(s, 1, 7, false), 1);
    assert_eq!(space_at(s, 2, 7, false), 0);
    assert_eq!(space_at(s, 3, 7, false), 1);
    assert_eq!(space_at(s, 4, 7, false), 1);
    assert_eq!(space_at(s, 5, 7, false), 1);
    assert_eq!(space_at(s, 6, 7, false), 0);
    assert_eq!(space_at("\u{a0}".as_bytes(), 0, 2, false), 0);
}

#[test]
fn white_space_of_the_header_is_unicode() {
    for c in '\0'..='\u{3100}' {
        let mut b = [0u8; 4];
        let s = c.encode_utf8(&mut b).as_bytes().to_vec();
        let expected = if c.is_whitespace() { s.len() } else { 0 };
        assert_eq!(space_at(&s, 0, s.len(), true), expected, "{:?}", c);
    }
    // a character cut short by the end is none
    let s = "\u{2003}".as_bytes();
    assert_eq!(space_at(s, 0, 3, true), 3);
    assert_eq!(space_at(s, 0, 2, true), 0);
    assert_eq!(space_at(s, 1, 3, true), 0);
}

#[test]
fn tokens_are_found_in_order() {
    let s = b"  ab \t c\n";
    assert_eq!(next_token(s, 0, s.len(), false), Some((2, 4)));
    assert_eq!(next_token(s, 4, s.len(), false), Some((7, 8)));
    assert_eq!(next_token(s, 8, s.len(), false), None);
    assert_eq!(next_token(s, 0, 3, false), Some((2, 3)));
    assert_eq!(next_token(s, 3, 3, false), None);
    assert_eq!(next_token(b"", 0, 0, true), None);
    let u = "a\u{3000}b".as_bytes();
    assert_eq!(next_token(u, 0, u.len(), true), Some((0, 1)));
    assert_eq!(next_token(u, 1, u.len(), true), Some((4, 5)));
    assert_eq!(next_token(u, 0, u.len(), false), Some((0, 5)));
}

#[test]
fn header_is_accepted_as_distributed() {
    assert_eq!(check_header(HEADER.as_bytes(), HEADER.len()), None);
    let tight = "-90.000000 90.000000 .000000 360.000000 .250000 .250000";
    assert_eq!(check_header(tight.as_bytes(), tight.len()), None);
    let wide = "-90.000000\u{a0}90.000000\u{2003}.000000\u{0b}360.000000\u{3000}.250000\u{85}.250000\r\n";
    assert_eq!(check_header(wide.as_bytes(), wide.len()), None);
}

#[test]
fn header_with_the_wrong_number_of_fields() {
    for h in [
        "",
        "\n",
        "-90.000000 90.000000 .000000 360.000000 .250000\n",
        "-90.000000 90.000000 .000000 360.000000 .250000 .250000 .250000\n",
        "-89.000000 90.000000 .000000 360.000000 .250000 .250000 1 2 3\n",
        "-90.00000090.000000 .000000 360.000000 .250000 .250000\n",
    ] {
        assert_eq!(
            MemoryGrid::from_ascii_reader(h.as_bytes()),
            Err(GridError::HeaderFieldCount),
            "{:?}",
            h
        );
    }
}

#[test]
fn header_with_an_altered_field_names_it() {
    let cases = [
        ("-90.00000 90.000000 .000000 360.000000 .250000 .250000", HeaderField::MinLat),
        ("-90.000000 89.000000 .000000 360.000000 .250000 .250000", HeaderField::MaxLat),
        ("-90.000000 90.000000 0.000000 360.000000 .250000 .250000", HeaderField::MinLng),
        ("-90.000000 90.000000 .000000 360.00000 .250000 .250000", HeaderField::MaxLng),
        ("-90.000000 90.000000 .000000 360.000000 .500000 .250000", HeaderField::LatInterval),
        ("-90.000000 90.000000 .000000 360.000000 .250000 0.250000", HeaderField::LngInterval),
        ("90.000000 -90.000000 .000000 360.000000 .250000 .250000", HeaderField::MinLat),
        ("-90.000000 89.000000 .000000 361.000000 .250000 .2", HeaderField::MaxLat),
    ];
    for (h, field) in cases {
        // what follows the header is never looked at
        let text = format!("{}\n 1.0 not-a-number 2.0\n", h);
        assert_eq!(
            MemoryGrid::from_ascii_reader(text.as_bytes()),
            Err(GridError::HeaderField(field)),
            "{:?}",
            h
        );
    }
}

#[test]
fn first_token_without_a_value_is_named() {
    let text = format!("{} 1.000 2.000\n 3.000 x 4.000 y\n", HEADER);
    assert_eq!(
        MemoryGrid::from_ascii_reader(text.as_bytes()),
        Err(GridError::InvalidToken { index: 3 })
    );
    let text = format!("{}.", HEADER);
    assert_eq!(
        MemoryGrid::from_ascii_reader(text.as_bytes()),
        Err(GridError::InvalidToken { index: 0 })
    );
    // a vertical tab splits header fields, not data tokens
    let text = format!("{}1.000\u{0b}2.000", HEADER);
    assert_eq!(
        MemoryGrid::from_ascii_reader(text.as_bytes()),
        Err(GridError::InvalidToken { index: 0 })
    );
}

#[test]
fn wrong_number_of_samples_is_reported() {
    assert_eq!(
        MemoryGrid::from_ascii_reader(HEADER.as_bytes()),
        Err(GridError::PointCount { expected: 1038961, found: 0 })
    );
    let text = format!("{}1.000 2.000\n\n\n3.000", HEADER);
    assert_eq!(
        MemoryGrid::from_ascii_reader(text.as_bytes()),
        Err(GridError::PointCount { expected: 1038961, found: 3 })
    );
    let text = distribution(POINT_COUNT - 1);
    assert_eq!(
        MemoryGrid::from_ascii_reader(text.as_bytes()),
        Err(GridError::PointCount { expected: 1038961, found: 1038960 })
    );
    let text = distribution(POINT_COUNT + 1);
    assert_eq!(
        MemoryGrid::from_ascii_reader(text.as_bytes()),
        Err(GridError::PointCount { expected: 1038961, found: 1038962 })
    );
}

#[test]
fn rows_are_put_in_the_opposite_order() {
    let v: Vec<i32> = (0..POINT_COUNT as i32).collect();
    let out = flip(&v);
    assert_eq!(out.len(), POINT_COUNT);
    assert_eq!(out[0], 720 * 1441);
    assert_eq!(out[1440], 720 * 1441 + 1440);
    assert_eq!(out[1441], 719 * 1441);
    assert_eq!(out[360 * 1441 + 5], 360 * 1441 + 5);
    assert_eq!(out[720 * 1441], 0);
    assert_eq!(out[POINT_COUNT - 1], 1440);
    assert_eq!(flip(&out), v);
}

#[test]
fn distribution_is_read_south_to_north() {
    let text = distribution(POINT_COUNT);
    let geoid = MemoryGrid::from_ascii_reader(text.as_bytes()).unwrap();
    let info = geoid.grid_info();
    assert_eq!(info.x_num, 360 * 4 + 1);
    assert_eq!(info.y_num, 180 * 4 + 1);
    assert_eq!(info.x_denom, 4);
    assert_eq!(info.y_denom, 4);
    assert_eq!(f32::from_bits(info.x_min_bits), 0.0);
    assert_eq!(f32::from_bits(info.y_min_bits), -90.0);
    assert_eq!(geoid.points.len(), 1441 * 721);
    // the first token of the text is the north-west corner
    assert_eq!(geoid.lookup_grid_points(0, 720), sample_of(0));
    assert_eq!(geoid.lookup_grid_points(1440, 720), sample_of(1440));
    assert_eq!(geoid.lookup_grid_points(0, 0), sample_of(720 * 1441));
    assert_eq!(geoid.lookup_grid_points(1440, 0), sample_of(POINT_COUNT - 1));
    for (ix, iy) in [(3u32, 5u32), (700, 360), (1439, 719), (12, 0)] {
        let from = (720 - iy as usize) * 1441 + ix as usize;
        assert_eq!(geoid.lookup_grid_points(ix, iy), sample_of(from));
        assert_eq!(
            stencil(&geoid, ix, iy, true, true),
            Stencil::Point { v00: sample_of(from) }
        );
    }
    // the corners of the domain: longitude 360 wraps to column 0
    assert_eq!(
        stencil(&geoid, 0, 720, true, true),
        Stencil::Point { v00: sample_of(0) }
    );
    assert_eq!(
        stencil(&geoid, 0, 0, true, true),
        Stencil::Point { v00: sample_of(720 * 1441) }
    );
    assert_eq!(stencil(&geoid, 1441, 0, true, true), Stencil::Outside);
    assert_eq!(stencil(&geoid, 0, 721, true, true), Stencil::Outside);
}

#[test]
fn ascii_to_binary_and_back() {
    // from ascii
    let text = distribution(POINT_COUNT);
    let geoid = MemoryGrid::from_ascii_reader(text.as_bytes()).unwrap();

    // to binary
    assert!(geoid.is_encodable());
    let mut buffer = Vec::new();
    geoid.to_binary_writer(&mut buffer);
    assert_eq!(buffer.len(), 16 + 4 * 1441 * 721);

    // from binary
    let again = MemoryGrid::from_binary_reader(&buffer).unwrap();
    assert_eq!(again, geoid);

    // to binary once more
    let mut second = Vec::new();
    again.to_binary_writer(&mut second);
    assert_eq!(second, buffer);

    // through the compressed block
    let blob = geoid.to_compressed();
    assert!(blob.len() < buffer.len());
    assert_eq!(load_embedded_egm96_grid15(&blob), Ok(geoid));
}
