use spd::client::appconfig::PortDetectorConfig;
use spd::client::port_detector::{contains_string, parse_ports, port_alerts, port_detector_round};
use spd::report::Round;

const SS_OUTPUT: &str = "Netid State  Recv-Q Send-Q Local Address:Port  Peer Address:Port Process\n\
udp   UNCONN 0      0      127.0.0.53%lo:53         0.0.0.0:*\n\
tcp   LISTEN 0      128          0.0.0.0:22         0.0.0.0:*\n\
tcp   LISTEN 0      128             [::]:8080            [::]:*\n\
short line\n";

fn strings(xs: &[&str]) -> Vec<String> {
    xs.iter().map(|x| x.to_string()).collect()
}

fn std_parse(stdout: &str) -> Vec<String> {
    stdout
        .lines()
        .skip(1)
        .filter_map(|line| {
            let parts: Vec<&str> = line.split_whitespace().collect();
            parts
                .get(4)
                .and_then(|addr| addr.split(':').last())
                .map(|port| format!("Port: {}, Protocol: {}", port, parts[0]))
        })
        .collect()
}

#[test]
fn listening_ports_are_read_from_ss_output() {
    let ports = parse_ports(SS_OUTPUT);
    assert_eq!(
        ports,
        strings(&["Port: 53, Protocol: udp", "Port: 22, Protocol: tcp", "Port: 8080, Protocol: tcp"])
    );
    assert_eq!(ports, std_parse(SS_OUTPUT));
}

#[test]
fn header_only_and_empty_output_have_no_ports() {
    assert!(parse_ports("").is_empty());
    assert!(parse_ports("Netid State Recv-Q Send-Q Local Peer\n").is_empty());
}

#[test]
fn the_last_unexpected_port_is_reported() {
    let ports = strings(&["Port: 22, Protocol: tcp", "Port: 53, Protocol: udp", "Port: 8080, Protocol: tcp"]);
    let alerts = port_alerts(&ports, &strings(&["Port: 22, Protocol: tcp"]));
    assert_eq!(alerts.len(), 1);
    assert_eq!(
        alerts.get("info"),
        Some(&"Detected not legit port: Port: 8080, Protocol: tcp".to_string())
    );
    let quiet = port_alerts(&ports, &ports);
    assert!(quiet.is_empty());
}

#[test]
fn membership_compares_text() {
    let v = strings(&["a", "b"]);
    assert!(contains_string(&v, &"b".to_string()));
    assert!(!contains_string(&v, &"c".to_string()));
}

#[test]
fn a_round_sends_even_an_empty_report() {
    let config = PortDetectorConfig {
        on: true,
        legit_ports: std_parse(SS_OUTPUT),
        cooldown: 10,
    };
    match port_detector_round(&config, true, SS_OUTPUT.as_bytes()) {
        Round::Send(report) => {
            assert_eq!(report.module, "port_detector");
            assert!(report.alerts.is_empty());
        }
        _ => panic!("expected a report"),
    }
}

#[test]
fn a_round_reports_unexpected_ports() {
    let config = PortDetectorConfig {
        on: true,
        legit_ports: strings(&["Port: 22, Protocol: tcp"]),
        cooldown: 10,
    };
    match port_detector_round(&config, true, SS_OUTPUT.as_bytes()) {
        Round::Send(report) => assert_eq!(
            report.alerts.get("info"),
            Some(&"Detected not legit port: Port: 8080, Protocol: tcp".to_string())
        ),
        _ => panic!("expected a report"),
    }
}

#[test]
fn a_failed_listing_is_skipped_and_bad_output_given_up() {
    let config = PortDetectorConfig { on: true, legit_ports: vec![], cooldown: 10 };
    assert!(matches!(port_detector_round(&config, false, SS_OUTPUT.as_bytes()), Round::Skip));
    assert!(matches!(port_detector_round(&config, true, &[0xff, 0xfe]), Round::BadOutput));
}
