use alpha_innotec::error::Error;
use alpha_innotec::page::{check_decimal, get_item_from_response, read_token, Reading};
use regex::Regex;

const TEMPERATURES: &str = "<Content><item id='0x4816ac'><name>Aanvoer</name><value>22.3°C</value></item><item id='0x44fdcc'><name>Retour</name><value>22.0°C</value></item><item id='0x4807dc'><name>Retour berekend</name><value>23.0°C</value></item><item id='0x45e1bc'><name>Heetgas</name><value>38.0°C</value></item><item id='0x448894'><name>Buitentemperatuur</name><value>-11.6°C</value></item><item id='0x48047c'><name>Gemiddelde temp.</name><value>13.1°C</value></item><item id='0x457724'><name>Tapwater gemeten</name><value>54.2°C</value></item><item id='0x45a514'><name>Zonnecollector</name><value>---</value></item><item id='0x461ecc'><name>Zonneboiler</name><value>150.0°C</value></item><item id='0x4646b4'><name>Aanvoer max.</name><value>66.0°C</value></item><item id='0x43e60c'><name>Oververhitting</name><value>4.8 K</value></item><name>Temperaturen</name></Content>";

const INPUTS: &str = "<Content><item id='0x4e7944'><name>ASD</name><value>Aan</value></item><item id='0x4ffbfc'><name>EVU</name><value>Aan</value></item><item id='0x4ef3b4'><name>HD</name><value>Uit</value></item><item id='0x4dac64'><name>MOT</name><value>Aan</value></item><item id='0x4ca4c4'><name>SWT</name><value>Uit</value></item><item id='0x4fa864'><name>Analoog-In 21</name><value>0.00 V</value></item><item id='0x4d5f1c'><name>Analoog-In 22</name><value>0.00 V</value></item><item id='0x4e6a3c'><name>HD</name><value>8.10 bar</value></item><item id='0x4ca47c'><name>ND</name><value>8.38 bar</value></item><item id='0x4e8004'><name>Debiet</name><value>1200 l/h</value></item><name>Ingangen</name></Content>";

fn number(item: &str, page: &str) -> String {
    match get_item_from_response(item, page) {
        Ok(Reading::Number(token)) => token,
        other => panic!("expected a number, got {:?}", other),
    }
}

fn entry(id: &str, name: &str, value: &str) -> String {
    format!("<item id='{}'><name>{}</name><value>{}</value></item>", id, name, value)
}

#[test]
fn returns_value_for_item_without_unit() {
    let token = number("Aanvoer", TEMPERATURES);
    assert_eq!(token, "22.3");
    assert_eq!(token.parse::<f64>().unwrap(), 22.3);
}

#[test]
fn returns_error_if_item_is_not_in_response() {
    match get_item_from_response("BestaatNiet", TEMPERATURES) {
        Err(Error::ItemNotFound(item)) => assert_eq!(item, "BestaatNiet"),
        other => panic!("expected a missing item, got {:?}", other),
    }
}

#[test]
fn returns_value_for_item_without_unit_for_pressure() {
    let token = number("HD", INPUTS);
    assert_eq!(token, "8.10");
    assert_eq!(token.parse::<f64>().unwrap(), 8.10);
}

#[test]
fn unit_is_dropped_whatever_it_is() {
    assert_eq!(number("Oververhitting", TEMPERATURES), "4.8");
    assert_eq!(number("Debiet", INPUTS), "1200");
    assert_eq!(number("Analoog-In 21", INPUTS), "0.00");
    assert_eq!(number("X", &entry("1", "X", "17")), "17");
    assert_eq!(number("X", &entry("1", "X", "17 kWh (dag)")), "17");
}

#[test]
fn negative_value_keeps_its_sign() {
    assert_eq!(number("Buitentemperatuur", TEMPERATURES), "-11.6");
}

#[test]
fn placeholder_is_a_missing_reading() {
    assert!(matches!(get_item_from_response("Zonnecollector", TEMPERATURES), Ok(Reading::Absent)));
    assert!(matches!(get_item_from_response("X", &entry("1", "X", "---°C")), Ok(Reading::Absent)));
}

#[test]
fn name_must_match_letter_for_letter() {
    assert!(matches!(
        get_item_from_response("Aanvoe", TEMPERATURES),
        Err(Error::ItemNotFound(_))
    ));
    assert!(matches!(
        get_item_from_response("aanvoer", TEMPERATURES),
        Err(Error::ItemNotFound(_))
    ));
    assert_eq!(number("Aanvoer max.", TEMPERATURES), "66.0");
    assert!(matches!(
        get_item_from_response("Aanvoer maxx", TEMPERATURES),
        Err(Error::ItemNotFound(_))
    ));
}

#[test]
fn value_without_token_is_no_entry() {
    assert!(matches!(get_item_from_response("ASD", INPUTS), Err(Error::ItemNotFound(_))));
    assert!(matches!(
        get_item_from_response("X", &entry("1", "X", "")),
        Err(Error::ItemNotFound(_))
    ));
    assert!(matches!(
        get_item_from_response("X", &entry("1", "X", "-")),
        Err(Error::ItemNotFound(_))
    ));
    assert!(matches!(
        get_item_from_response("X", &entry("1", "X", "--")),
        Err(Error::ItemNotFound(_))
    ));
}

#[test]
fn two_entries_for_one_item_are_refused() {
    let page = format!("<Content>{}{}</Content>", entry("1", "X", "1.0"), entry("2", "X", "2.0"));
    match get_item_from_response("X", &page) {
        Err(Error::ItemNotFound(item)) => assert_eq!(item, "X"),
        other => panic!("expected a missing item, got {:?}", other),
    }
    let same = format!("{}{}", entry("1", "X", "1.0"), entry("1", "X", "1.0"));
    assert!(matches!(get_item_from_response("X", &same), Err(Error::ItemNotFound(_))));
}

#[test]
fn malformed_number_is_a_parse_error() {
    for value in ["1.2.3", ".", "-.", "..", "-..5", "1..0 bar"] {
        let page = entry("1", "X", value);
        match get_item_from_response("X", &page) {
            Err(Error::ValueParseError { item, token }) => {
                assert_eq!(item, "X");
                assert!(value.starts_with(&token));
                assert!(token.parse::<f64>().is_err());
            }
            other => panic!("expected a parse error for {}, got {:?}", value, other),
        }
    }
}

#[test]
fn reading_a_token() {
    assert!(matches!(read_token("X", "---"), Ok(Reading::Absent)));
    match read_token("X", "22.0") {
        Ok(Reading::Number(token)) => assert_eq!(token, "22.0"),
        other => panic!("expected a number, got {:?}", other),
    }
    match read_token("X", "1.2.3") {
        Err(Error::ValueParseError { item, token }) => {
            assert_eq!(item, "X");
            assert_eq!(token, "1.2.3");
        }
        other => panic!("expected a parse error, got {:?}", other),
    }
    assert!(matches!(read_token("X", ""), Err(Error::ValueParseError { .. })));
    assert!(matches!(read_token("X", "----"), Err(Error::ValueParseError { .. })));
    assert!(matches!(read_token("X", "abc"), Err(Error::ValueParseError { .. })));
}

#[test]
fn decimal_tokens_are_those_that_parse() {
    let tokens = [
        "0", "1", "22.0", "-22.0", "5.", ".5", "-.5", "-5.", "007", "1200", "0.00", ".", "-", "",
        "-.", "1.2.3", "..", "1..", "--1", "-1-", "5.5.", "123456789012345678901234567890",
        "0.000000000000000000000000000001",
    ];
    for token in tokens {
        let chars: Vec<char> = token.chars().collect();
        assert_eq!(check_decimal(&chars), token.parse::<f64>().is_ok(), "token {:?}", token);
    }
    let wider: Vec<char> = "1e5".chars().collect();
    assert!(!check_decimal(&wider));
    let signed: Vec<char> = "+5".chars().collect();
    assert!(!check_decimal(&signed));
}

#[test]
fn identifier_ends_at_the_first_quote() {
    let page = "<item id=''><name>X</name><value>3</value></item>";
    assert_eq!(number("X", page), "3");
    let broken = "<item id='a'b'><name>X</name><value>3</value></item>";
    assert!(matches!(get_item_from_response("X", broken), Err(Error::ItemNotFound(_))));
}

#[test]
fn entry_must_be_closed() {
    let open = "<item id='1'><name>X</name><value>3 bar</value>";
    assert!(matches!(get_item_from_response("X", open), Err(Error::ItemNotFound(_))));
    let nested = "<item id='1'><name>X</name><value>3<b>bar</b></value></item>";
    assert!(matches!(get_item_from_response("X", nested), Err(Error::ItemNotFound(_))));
}

#[test]
fn empty_page_holds_nothing() {
    assert!(matches!(get_item_from_response("X", ""), Err(Error::ItemNotFound(_))));
    assert!(matches!(get_item_from_response("", ""), Err(Error::ItemNotFound(_))));
}

#[test]
fn agrees_with_the_pattern_on_real_pages() {
    let items = [
        "Aanvoer", "Retour", "Retour berekend", "Heetgas", "Buitentemperatuur",
        "Gemiddelde temp.", "Tapwater gemeten", "Zonnecollector", "Zonneboiler", "Aanvoer max.",
        "Oververhitting", "ASD", "EVU", "HD", "MOT", "SWT", "Analoog-In 21", "Analoog-In 22",
        "ND", "Debiet", "Temperaturen", "Ingangen", "Bestaat niet",
    ];
    for page in [TEMPERATURES, INPUTS] {
        for item in items {
            let pattern = Regex::new(&format!(
                r"<item id='[^']*'><name>{}</name><value>(-?[0-9.]+|---)[^<]*</value></item>",
                regex::escape(item)
            ))
            .unwrap();
            let found: Vec<String> =
                pattern.captures_iter(page).map(|c| c[1].to_string()).collect();
            let expected: Option<String> = if found.len() == 1 { Some(found[0].clone()) } else { None };
            let actual = match get_item_from_response(item, page) {
                Ok(Reading::Number(token)) => Some(token),
                Ok(Reading::Absent) => Some("---".to_string()),
                Err(Error::ItemNotFound(_)) => None,
                other => panic!("unexpected {:?}", other),
            };
            assert_eq!(actual, expected, "item {:?}", item);
        }
    }
}
