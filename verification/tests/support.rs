use cdn_dns::config::{ApplicationSettings, CdnSettings, Environment, Settings};
use cdn_dns::errors::{
    failed_cdn_down, failed_config_read, failed_env_parse, failed_json_parse, failed_path_read,
    failed_socket_bind, index_out_of_bound, jumps_limit, label_len_limit, DnsError,
};

#[test]
fn error_helpers_name_their_errors() {
    assert_eq!(index_out_of_bound(), DnsError::OutOfBounds);
    assert_eq!(jumps_limit(5), DnsError::JumpLimitExceeded);
    assert_eq!(label_len_limit(), DnsError::LabelTooLong);
    assert_eq!(failed_json_parse(), "Failed to parse JSON string");
    assert_eq!(failed_path_read("connections.json"), "Failed to read from connections.json");
    assert_eq!(
        failed_env_parse("staging"),
        "staging is not a supported environment. User either `local` or `production`."
    );
    assert_eq!(failed_config_read(), "Failed to read configuration.");
    assert_eq!(failed_socket_bind(), "Failed to bind socket address to `UdpSocket`");
    assert_eq!(failed_cdn_down(), "The CDN is currently down, Try again later!");
}

#[test]
fn environment_names() {
    assert_eq!(Environment::Local.as_str(), "local");
    assert_eq!(Environment::Production.as_str(), "production");
}

#[test]
fn settings_carry_their_fields() {
    let mut settings = Settings {
        application: ApplicationSettings {
            is_load_balancer: true,
            port: 5353,
            host: String::from("0.0.0.0"),
        },
        cdn: CdnSettings {
            hostname: String::from("cdn.example"),
            connections_path: String::from("connections.json"),
            up_servers: vec![String::from("10.9.9.9")],
            port: 8000,
        },
    };
    assert!(settings.application.is_load_balancer);
    settings.cdn.check_up_servers(vec![String::from("10.8.8.8")]);
    assert_eq!(settings.cdn.up_servers, vec![String::from("10.8.8.8")]);
}
