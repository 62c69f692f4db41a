use danmu2ass::xml_parser::{
    decode_rgb, starts_with_bom, AttrError, Parser, ParserError, Status, Step,
};
use danmu2ass::{Danmu, DanmuType};

#[test]
fn from_xml() {
    let danmu = Danmu::from_xml_p_attr("0.583,1,25,14893055,1647777083474,0,215087720,0")
        .unwrap()
        .unwrap();
    assert_eq!(danmu.timeline_s.parse::<f64>(), Ok(0.583));
    assert_eq!(
        danmu,
        Danmu {
            timeline_s: "0.583".to_string(),
            content: String::new(),
            kind: DanmuType::Float,
            fontsize: 25,
            rgb: (0xe3, 0x3f, 0xff),
        }
    );
}

#[test]
fn parse_rgb_255255255() {
    let danmu = Danmu::from_xml_p_attr(
        "1036.83700,1,25,255255255,1764772645,0,3ce09b1e,1993816477455038720,7",
    );
    let danmu = danmu.unwrap().unwrap();
    assert_eq!(danmu.rgb, (255, 255, 255));
    assert_eq!(danmu.timeline_s.parse::<f64>(), Ok(1036.837));
}

#[test]
fn type_numbers() {
    assert_eq!(DanmuType::from_xml_num(1), Ok(DanmuType::Float));
    assert_eq!(DanmuType::from_xml_num(4), Ok(DanmuType::Bottom));
    assert_eq!(DanmuType::from_xml_num(5), Ok(DanmuType::Top));
    assert_eq!(DanmuType::from_xml_num(6), Ok(DanmuType::Reverse));
    for num in [0, 2, 3, 7, 8, u32::MAX] {
        assert_eq!(
            DanmuType::from_xml_num(num),
            Err(AttrError::UnknownType(num))
        );
    }
}

fn time_of(field: &str) -> Result<String, AttrError> {
    Danmu::from_xml_p_attr(&format!("{},1,25,255", field)).map(|d| d.unwrap().timeline_s)
}

const TIMES: [&str; 40] = [
    "0.581",
    "1036.83700",
    "5",
    "5.",
    ".5",
    "007.25",
    "+2",
    "-1.5",
    "-0.0",
    "+.5",
    "-5.",
    "1e3",
    "1E3",
    "1e+3",
    "1e-3",
    "1.5e10",
    ".5E-2",
    "5.e2",
    "-2.5E+10",
    "1e0003",
    "1e400",
    "1e-400",
    "0e0",
    "inf",
    "-inf",
    "+inf",
    "INF",
    "Inf",
    "infinity",
    "-Infinity",
    "+INFINITY",
    "iNfInItY",
    "nan",
    "NaN",
    "-nan",
    "+NAN",
    "9223372036854775.808",
    "99999999999999999999999999",
    "0.00000000000000000000000001",
    "123456789012345678901234567890.123456789012345678901234567890e-5",
];

const NO_TIMES: [&str; 44] = [
    "",
    ".",
    "+",
    "-",
    "+.",
    "-.",
    "abc",
    "e",
    "e5",
    ".e5",
    "-e5",
    "1e",
    "1e+",
    "1e-",
    "1e5.",
    "1e5.0",
    "1e5e5",
    "1ee5",
    "1e 5",
    "1.2.3",
    "1..2",
    " 1",
    "1 ",
    "1\n",
    "--1",
    "+-1",
    "1.-5",
    "1.+5",
    "1_000",
    "0x10",
    "1f",
    "in",
    "infi",
    "infinit",
    "infinityy",
    "inf.",
    "na",
    "nana",
    "nan0",
    "++inf",
    "１",
    "1\u{212a}",
    "\u{130}nf",
    "1٫5",
];

#[test]
fn time_is_kept_as_it_is_written() {
    for text in TIMES {
        assert_eq!(time_of(text), Ok(text.to_string()), "{:?}", text);
    }
}

#[test]
fn time_is_what_reads_as_a_floating_point_number() {
    for text in TIMES {
        let value: f64 = text.parse().unwrap();
        let kept: f64 = time_of(text).unwrap().parse().unwrap();
        assert!(value == kept || (value.is_nan() && kept.is_nan()), "{:?}", text);
    }
    for text in NO_TIMES {
        assert!(text.parse::<f64>().is_err(), "{:?}", text);
    }
}

#[test]
fn comment_with_an_exponent_in_its_time_has_its_colour() {
    let danmu = Danmu::from_xml_p_attr("1e3,1,25,255").unwrap().unwrap();
    assert_eq!(danmu.rgb, (0, 0, 255));
    assert_eq!(danmu.timeline_s.parse::<f64>(), Ok(1000.0));
    let danmu = Danmu::from_xml_p_attr("inf,4,25,255255255").unwrap().unwrap();
    assert_eq!(danmu.rgb, (255, 255, 255));
    assert_eq!(danmu.timeline_s.parse::<f64>(), Ok(f64::INFINITY));
    let danmu = Danmu::from_xml_p_attr("NaN,5,25,0").unwrap().unwrap();
    assert!(danmu.timeline_s.parse::<f64>().unwrap().is_nan());
}

#[test]
fn time_that_is_no_number_is_refused() {
    for field in NO_TIMES {
        assert_eq!(time_of(field), Err(AttrError::BadTime), "{:?}", field);
    }
}

#[test]
fn faults_are_reported_in_the_order_of_the_fields() {
    let read = |p: &str| Danmu::from_xml_p_attr(p);
    assert_eq!(read(""), Err(AttrError::BadTime));
    assert_eq!(read("x,y,z,w"), Err(AttrError::BadTime));
    assert_eq!(read("1.0"), Err(AttrError::NoType));
    assert_eq!(read("1.0,"), Err(AttrError::BadType));
    assert_eq!(read("1.0,x,y,z"), Err(AttrError::BadType));
    assert_eq!(read("1.0,-1,25,0"), Err(AttrError::BadType));
    assert_eq!(read("1.0,4294967296,25,0"), Err(AttrError::BadType));
    assert_eq!(read("1.0,1"), Err(AttrError::NoFontSize));
    assert_eq!(read("1.0,1,"), Err(AttrError::BadFontSize));
    assert_eq!(read("1.0,1,2.5,z"), Err(AttrError::BadFontSize));
    assert_eq!(read("1.0,1,25"), Err(AttrError::NoColor));
    assert_eq!(read("1.0,1,25,"), Err(AttrError::BadColor));
    assert_eq!(read("1.0,1,25,ffffff"), Err(AttrError::BadColor));
    assert_eq!(
        read("1.0,1,25,255255256"),
        Err(AttrError::ColorOutOfRange(255255256))
    );
    assert_eq!(
        read("1.0,1,25,4294967295,rest"),
        Err(AttrError::ColorOutOfRange(u32::MAX))
    );
}

#[test]
fn unknown_type_gives_no_comment() {
    assert_eq!(Danmu::from_xml_p_attr("1.0,2,25,0"), Ok(None));
    assert_eq!(Danmu::from_xml_p_attr("1.0,7"), Ok(None));
    assert_eq!(Danmu::from_xml_p_attr("1.0,0,x,y"), Ok(None));
    assert_eq!(Danmu::from_xml_p_attr("x,7,25,0"), Err(AttrError::BadTime));
}

#[test]
fn numbers_may_carry_a_plus_and_zeros() {
    assert_eq!(
        Danmu::from_xml_p_attr("1,+4,+025,+0000000255"),
        Ok(Some(Danmu {
            timeline_s: "1".to_string(),
            content: String::new(),
            kind: DanmuType::Bottom,
            fontsize: 25,
            rgb: (0, 0, 255),
        }))
    );
    assert_eq!(
        Danmu::from_xml_p_attr("1,5,4294967295,16777215"),
        Ok(Some(Danmu {
            timeline_s: "1".to_string(),
            content: String::new(),
            kind: DanmuType::Top,
            fontsize: u32::MAX,
            rgb: (255, 255, 255),
        }))
    );
}

#[test]
fn colours() {
    assert_eq!(decode_rgb(0), Some((0, 0, 0)));
    assert_eq!(decode_rgb(0x123456), Some((0x12, 0x34, 0x56)));
    assert_eq!(decode_rgb(0xffffff), Some((255, 255, 255)));
    // from 2^24 on the number is read in base ten
    assert_eq!(decode_rgb(0x1000000), Some((16, 9, 216)));
    assert_eq!(decode_rgb(100_000_000), Some((100, 0, 0)));
    assert_eq!(decode_rgb(255_000_128), Some((255, 0, 128)));
    assert_eq!(decode_rgb(200_999_300), Some((200, 231, 44)));
    assert_eq!(decode_rgb(255_255_255), Some((255, 255, 255)));
    assert_eq!(decode_rgb(255_255_256), None);
    assert_eq!(decode_rgb(u32::MAX), None);
}

#[test]
fn byte_order_mark() {
    assert!(starts_with_bom(&[0xef, 0xbb, 0xbf]));
    assert!(starts_with_bom(&[0xef, 0xbb, 0xbf, b'<']));
    assert!(!starts_with_bom(&[0xef, 0xbb]));
    assert!(!starts_with_bom(&[]));
    assert!(!starts_with_bom(b"<?xml"));
    assert!(!starts_with_bom(&[0xef, 0xbb, 0xbe]));
}

fn attributes(pairs: &[(&str, &str)]) -> Vec<(Vec<u8>, Vec<u8>)> {
    pairs
        .iter()
        .map(|(k, v)| (k.as_bytes().to_vec(), v.as_bytes().to_vec()))
        .collect()
}

fn is_start(parser: &Parser) -> bool {
    matches!(parser.status, Status::Start)
}

#[test]
fn parser_reads_a_comment() {
    let mut parser = Parser::new();
    assert_eq!(parser.count, 0);
    assert!(is_start(&parser));
    assert!(matches!(parser.on_start(b"i", &attributes(&[])), Step::Pending));
    assert!(matches!(parser.on_text(b"\n  "), Step::Pending));
    assert!(is_start(&parser));
    let attrs = attributes(&[
        ("p", "0.581,1,25,14893055,1647777083220,0,398452452,0"),
        ("user", "someone"),
    ]);
    assert!(matches!(parser.on_start(b"d", &attrs), Step::Pending));
    assert!(matches!(parser.status, Status::AttrWaitForContent(_)));
    assert!(matches!(parser.on_end(b"d"), Step::Pending));
    assert!(matches!(parser.status, Status::AttrWaitForContent(_)));
    assert!(matches!(parser.on_text("快快快".as_bytes()), Step::Pending));
    assert!(matches!(parser.status, Status::WaitForEnd(_)));
    assert!(matches!(parser.on_text(b"more"), Step::Pending));
    assert!(matches!(parser.on_end(b"b"), Step::Pending));
    assert!(matches!(parser.on_start(b"b", &attributes(&[])), Step::Pending));
    match parser.on_end(b"d") {
        Step::Item(danmu) => assert_eq!(
            danmu,
            Danmu {
                timeline_s: "0.581".to_string(),
                content: "快快快".to_string(),
                kind: DanmuType::Float,
                fontsize: 25,
                rgb: (0xe3, 0x3f, 0xff),
            }
        ),
        other => panic!("{:?}", other),
    }
    assert_eq!(parser.count, 1);
    assert!(is_start(&parser));
    assert!(matches!(parser.on_end(b"d"), Step::Pending));
    assert_eq!(parser.count, 1);
    assert!(matches!(parser.on_eof(), Step::End));
    assert_eq!(parser.count, 1);
}

#[test]
fn parser_keeps_line_breaks() {
    let mut parser = Parser::new();
    let attrs = attributes(&[("p", "1.171,1,25,5566168,1649656743447,0,1772442517,0")]);
    parser.on_start(b"d", &attrs);
    parser.on_text("呵\n呵\n比\n你\n们\n更\n喜\n欢\n晚\n晚".as_bytes());
    match parser.on_end(b"d") {
        Step::Item(danmu) => assert_eq!(danmu.content, "呵\n呵\n比\n你\n们\n更\n喜\n欢\n晚\n晚"),
        other => panic!("{:?}", other),
    }
}

#[test]
fn parser_takes_the_first_p() {
    let mut parser = Parser::new();
    let attrs = attributes(&[("pp", "x"), ("p", "2,4,25,0"), ("p", "3,5,25,0")]);
    parser.on_start(b"d", &attrs);
    parser.on_text(b"t");
    match parser.on_end(b"d") {
        Step::Item(danmu) => {
            assert_eq!(danmu.timeline_s, "2");
            assert_eq!(danmu.kind, DanmuType::Bottom);
        }
        other => panic!("{:?}", other),
    }
}

#[test]
fn parser_restarts_a_comment_at_the_next_start() {
    let mut parser = Parser::new();
    parser.on_start(b"d", &attributes(&[("p", "2,4,25,0")]));
    parser.on_text(b"first");
    parser.on_start(b"d", &attributes(&[("p", "3,5,25,0")]));
    parser.on_text(b"second");
    match parser.on_end(b"d") {
        Step::Item(danmu) => {
            assert_eq!(danmu.timeline_s, "3");
            assert_eq!(danmu.content, "second");
        }
        other => panic!("{:?}", other),
    }
}

#[test]
fn parser_passes_over_unknown_types() {
    let mut parser = Parser::new();
    parser.on_start(b"d", &attributes(&[("p", "2,4,25,0")]));
    assert!(matches!(
        parser.on_start(b"d", &attributes(&[("p", "2,7,25,0")])),
        Step::Pending
    ));
    assert!(is_start(&parser));
    assert!(matches!(parser.on_text(b"t"), Step::Pending));
    assert!(matches!(parser.on_end(b"d"), Step::Pending));
    assert_eq!(parser.count, 0);
}

#[test]
fn parser_reports_faults() {
    let mut parser = Parser::new();
    parser.on_start(b"d", &attributes(&[("p", "2,4,25,0")]));
    assert!(matches!(
        parser.on_start(b"d", &attributes(&[("user", "x")])),
        Step::Failed(ParserError::MissingP)
    ));
    assert!(is_start(&parser));

    parser.on_start(b"d", &attributes(&[("p", "2,4,25,0")]));
    let bad = vec![(b"p".to_vec(), vec![b'1', 0xff])];
    assert!(matches!(
        parser.on_start(b"d", &bad),
        Step::Failed(ParserError::InvalidUtf8)
    ));
    assert!(is_start(&parser));

    parser.on_start(b"d", &attributes(&[("p", "2,4,25,0")]));
    assert!(matches!(
        parser.on_start(b"d", &attributes(&[("p", "2,4,25")])),
        Step::Failed(ParserError::Attr(AttrError::NoColor))
    ));
    assert!(is_start(&parser));

    parser.on_start(b"d", &attributes(&[("p", "2,4,25,0")]));
    assert!(matches!(
        parser.on_text(&[0xe5, 0xbf]),
        Step::Failed(ParserError::InvalidUtf8)
    ));
    assert!(is_start(&parser));
    assert!(matches!(
        parser.on_text(&[0xc0, 0x80]),
        Step::Failed(ParserError::InvalidUtf8)
    ));

    // a fault does not stop the parser
    parser.on_start(b"d", &attributes(&[("p", "2,4,25,0")]));
    parser.on_text(b"t");
    assert!(matches!(parser.on_end(b"d"), Step::Item(_)));
    assert_eq!(parser.count, 1);
}

#[test]
fn parser_gives_up_a_comment_on_restart() {
    let mut parser = Parser::new();
    parser.on_start(b"d", &attributes(&[("p", "2,4,25,0")]));
    parser.on_text(b"t");
    parser.restart();
    assert!(is_start(&parser));
    assert!(matches!(parser.on_end(b"d"), Step::Pending));
    assert_eq!(parser.count, 0);
}

#[test]
fn parser_stops_counting_at_the_largest_number() {
    let mut parser = Parser::new();
    parser.count = u64::MAX - 1;
    for expected in [u64::MAX, u64::MAX] {
        parser.on_start(b"d", &attributes(&[("p", "2,4,25,0")]));
        parser.on_text(b"t");
        assert!(matches!(parser.on_end(b"d"), Step::Item(_)));
        assert_eq!(parser.count, expected);
    }
}

/// Whether the attribute with `text` as its time is read, and `text` reads
/// as a floating-point number.
fn agree(text: &str) -> bool {
    let read = match time_of(text) {
        Ok(kept) => kept == text,
        Err(e) => {
            assert_eq!(e, AttrError::BadTime);
            false
        }
    };
    read == text.parse::<f64>().is_ok()
}

#[test]
fn short_texts_are_times_where_they_read_as_numbers() {
    let alphabet = [
        '+', '-', '.', '0', '7', 'e', 'E', 'i', 'n', 'f', 'a', 'N', ' ', 't', 'y', 'x',
    ];
    let mut texts: Vec<String> = vec![String::new()];
    let mut from = 0;
    for _ in 0..4 {
        let until = texts.len();
        for i in from..until {
            for c in alphabet {
                let mut longer = texts[i].clone();
                longer.push(c);
                texts.push(longer);
            }
        }
        from = until;
    }
    assert_eq!(texts.len(), 1 + 16 + 256 + 4096 + 65536);
    let mut times = 0;
    for text in &texts {
        assert!(agree(text), "{:?}", text);
        if text.parse::<f64>().is_ok() {
            times += 1;
        }
    }
    assert!(times > 100);
}

#[test]
fn texts_near_a_time_are_times_where_they_read_as_numbers() {
    let alphabet = ['+', '-', '.', '1', 'e', 'E', 'i', 'I', 'n', 'f', 't', 'y', 'a', 'N'];
    for seed in ["infinity", "-Infinity", "nan", "+inf", "12.5e-3", "1.e+10", ".5E7"] {
        let chars: Vec<char> = seed.chars().collect();
        for at in 0..=chars.len() {
            for c in alphabet {
                let mut inserted = chars.clone();
                inserted.insert(at, c);
                assert!(agree(&inserted.iter().collect::<String>()));
                if at < chars.len() {
                    let mut replaced = chars.clone();
                    replaced[at] = c;
                    assert!(agree(&replaced.iter().collect::<String>()));
                }
            }
            if at < chars.len() {
                let mut removed = chars.clone();
                removed.remove(at);
                assert!(agree(&removed.iter().collect::<String>()));
                let mut swapped = chars.clone();
                swapped[at] = if chars[at].is_lowercase() {
                    chars[at].to_ascii_uppercase()
                } else {
                    chars[at].to_ascii_lowercase()
                };
                assert!(agree(&swapped.iter().collect::<String>()));
            }
        }
    }
}
