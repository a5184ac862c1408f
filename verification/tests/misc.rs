use spd::schedule::next_pause;
use spd::server::tcp_server::{accept_error_message, connection_banner, listen_banner, ServerSettings};

#[test]
fn pauses_are_below_the_cooldown() {
    for _ in 0..100 {
        assert!(next_pause(5) < 5);
    }
    assert_eq!(next_pause(1), 0);
}

#[test]
fn server_lines() {
    let settings = ServerSettings { ip: "0.0.0.0".to_string(), port: 9000 };
    assert_eq!(listen_banner(&settings), "Сервер запущен на 0.0.0.0:9000");
    assert_eq!(connection_banner("1.2.3.4:5"), "Новое соединение: 1.2.3.4:5");
    assert_eq!(accept_error_message("oops"), "Ошибка при принятии соединения: oops");
}

#[test]
fn server_config_holds_the_secret() {
    let c = spd::server::appconfig::AppConfig {
        server_settings: spd::server::appconfig::ServerSettings {
            ip: "127.0.0.1".to_string(),
            port: 1,
            init_secret: "SECRET-REDACTED".to_string(),
        },
    };
    assert_eq!(c.server_settings.port, 1);
}
