use alpha_innotec::error::Error;
use alpha_innotec::exporter_service::{ExporterService, ExporterServiceConfig};
use alpha_innotec::model::{
    Config, ConfigSample, EntityType, MetricType, Number, SampleType, NEGATIVE_ZERO_BITS, ONE_BITS,
};
use alpha_innotec::text::{chars_of, decimal, find, find_char, has_at};
use alpha_innotec::websocket_client::{WebsocketClient, WebsocketClientConfig};

fn client(host: &str, port: u32, code: &str) -> WebsocketClient {
    WebsocketClient::new(
        WebsocketClientConfig::new(host.to_string(), port, code.to_string()).unwrap(),
    )
}

fn config() -> Config {
    Config { location: "My Home".to_string(), sanitize_samples: true, sample_configs: Vec::new() }
}

fn request(multiplier: f64) -> ConfigSample {
    ConfigSample {
        entity_type: EntityType::Device,
        entity_name: "Alpha Innotec SWCV 92K3".to_string(),
        sample_type: SampleType::Temperature,
        sample_name: "Aanvoer".to_string(),
        metric_type: MetricType::Gauge,
        value_multiplier: Number::from_bits(multiplier.to_bits()),
        navigation: "Informatie > Temperaturen".to_string(),
        item: "Aanvoer".to_string(),
    }
}

#[test]
fn settings_are_kept() {
    let settings =
        WebsocketClientConfig::new("127.0.0.1".to_string(), 8214, "999999".to_string()).unwrap();
    assert_eq!(settings.host_address(), "127.0.0.1");
    assert_eq!(settings.host_port(), 8214);
    assert_eq!(settings.login_code(), "999999");
    let client = WebsocketClient::new(settings);
    assert_eq!(client.config().host_address(), "127.0.0.1");
    assert_eq!(client.config().host_port(), 8214);
}

#[test]
fn endpoint_names_host_and_port() {
    assert_eq!(client("192.168.178.94", 8214, "1").endpoint(), "ws://192.168.178.94:8214");
    assert_eq!(client("heatpump.local", 0, "1").endpoint(), "ws://heatpump.local:0");
    assert_eq!(client("h", 4294967295, "1").endpoint(), "ws://h:4294967295");
    assert_eq!(client("h", 10, "1").endpoint(), "ws://h:10");
}

#[test]
fn origin_names_the_host() {
    assert_eq!(client("192.168.178.94", 8214, "1").origin(), "http://192.168.178.94");
}

#[test]
fn protocol_is_fixed() {
    assert_eq!(client("h", 1, "1").protocol(), "Lux_WS");
}

#[test]
fn numbers_are_written_in_decimal() {
    for n in [0u32, 1, 9, 10, 11, 99, 100, 101, 8214, 65535, 1000000, 4294967295] {
        assert_eq!(decimal(n), n.to_string());
    }
}

#[test]
fn measurement_starts_empty() {
    let measurement = client("h", 1, "1").begin_measurement(&config());
    assert_eq!(measurement.source, "jarvis-alpha-innotec-exporter");
    assert_eq!(measurement.location, "My Home");
    assert!(measurement.samples.is_empty());
}

#[test]
fn identifier_is_fresh_for_each_measurement() {
    let client = client("h", 1, "1");
    let first = client.begin_measurement(&config());
    let second = client.begin_measurement(&config());
    assert_eq!(first.id.len(), 36);
    assert_eq!(second.id.len(), 36);
    assert_ne!(first.id, second.id);
    let dashes: Vec<usize> =
        first.id.char_indices().filter(|(_, c)| *c == '-').map(|(i, _)| i).collect();
    assert_eq!(dashes, vec![8, 13, 18, 23]);
    assert!(first.id.chars().all(|c| c == '-' || c.is_ascii_hexdigit()));
}

#[test]
fn time_of_a_measurement_is_now() {
    let measurement = client("h", 1, "1").begin_measurement(&config());
    assert!(measurement.measured_at_time.seconds > 1_600_000_000);
    assert!(measurement.measured_at_time.nanoseconds < 1_000_000_000);
    let later = client("h", 1, "1").begin_measurement(&config());
    assert!(later.measured_at_time.seconds >= measurement.measured_at_time.seconds);
}

#[test]
fn multiplier_of_zero_becomes_one() {
    let mut zero = request(0.0);
    zero.set_defaults();
    assert_eq!(f64::from_bits(zero.value_multiplier.bits), 1.0);
    let mut negative_zero = request(-0.0);
    assert_eq!(negative_zero.value_multiplier.bits, NEGATIVE_ZERO_BITS);
    negative_zero.set_defaults();
    assert_eq!(negative_zero.value_multiplier.bits, ONE_BITS);
    let mut other = request(0.001);
    other.set_defaults();
    assert_eq!(f64::from_bits(other.value_multiplier.bits), 0.001);
    assert_eq!(other.item, "Aanvoer");
    assert_eq!(other.navigation, "Informatie > Temperaturen");
}

#[test]
fn one_is_one() {
    assert_eq!(f64::from_bits(Number::one().bits), 1.0);
    assert_eq!(f64::from_bits(ONE_BITS), 1.0);
    assert_eq!(NEGATIVE_ZERO_BITS, (-0.0f64).to_bits());
}

#[test]
fn defaults_reach_every_request() {
    let mut config = Config {
        location: "My Home".to_string(),
        sanitize_samples: false,
        sample_configs: vec![request(0.0), request(2.5), request(0.0)],
    };
    config.set_defaults();
    let multipliers: Vec<f64> =
        config.sample_configs.iter().map(|c| f64::from_bits(c.value_multiplier.bits)).collect();
    assert_eq!(multipliers, vec![1.0, 2.5, 1.0]);
    assert_eq!(config.location, "My Home");
    assert!(!config.sanitize_samples);
}

#[test]
fn service_holds_its_parts() {
    let parts = ExporterServiceConfig::new("config", 7u8, vec![1, 2], client("h", 1, "1"));
    let service = ExporterService::new(parts.ok().unwrap());
    assert_eq!(*service.config().config_client(), "config");
    assert_eq!(*service.config().bigquery_client(), 7u8);
    assert_eq!(*service.config().state_client(), vec![1, 2]);
    assert_eq!(service.config().websocket_client().endpoint(), "ws://h:1");
}

#[test]
fn searching_in_text() {
    let text = chars_of("a > b > c");
    let mark = chars_of(" > ");
    assert_eq!(text.len(), 9);
    assert!(has_at(&text, 1, &mark));
    assert!(!has_at(&text, 0, &mark));
    assert!(!has_at(&text, 7, &mark));
    assert!(!has_at(&text, 100, &mark));
    assert!(has_at(&text, 9, &Vec::new()));
    assert_eq!(find(&text, 0, &mark), 1);
    assert_eq!(find(&text, 2, &mark), 5);
    assert_eq!(find(&text, 6, &mark), 9);
    assert_eq!(find_char(&text, 0, 'b'), 4);
    assert_eq!(find_char(&text, 5, 'b'), 9);
    assert_eq!(chars_of("°C é"), vec!['°', 'C', ' ', 'é']);
}

#[test]
fn errors_say_what_failed() {
    assert_eq!(Error::ConnectionError.message(), "Could not connect to the heat pump");
    assert_eq!(Error::LoginError.message(), "Login was not answered with a navigation");
    assert_eq!(Error::NoResponse.message(), "No response received for message");
    assert_eq!(
        Error::PathNotFound("Uitgangen".to_string()).message(),
        "Item Uitgangen does not exist"
    );
    assert_eq!(Error::ItemNotFound("HD".to_string()).message(), "No match for item HD");
    assert_eq!(
        Error::ValueParseError { item: "HD".to_string(), token: "1.2.3".to_string() }.message(),
        "Value 1.2.3 of item HD is not a number"
    );
}

#[test]
fn zero_is_zero() {
    assert_eq!(f64::from_bits(Number::zero().bits), 0.0);
    assert_eq!(Number::zero().bits, 0);
    assert_eq!(f64::from_bits(Number::zero().or_one().bits), 1.0);
    assert_eq!(f64::from_bits(Number::from_bits(2.5f64.to_bits()).or_one().bits), 2.5);
}
