use panda_knocker::config::{config_or_default, Config};
use panda_knocker::knocker::Knocker;

#[test]
fn defaults_match_the_documented_record() {
    let c = Config::default();
    assert_eq!(c.host, "127.0.0.1");
    assert_eq!(c.ports_str, "5000, 6000, 7000");
    assert_eq!(c.close_ports_str, "7000, 6000, 5000");
    assert_eq!(c.delay, 1000);
}

#[test]
fn a_loaded_record_is_used_as_it_is() {
    let c = config_or_default(Some(Config {
        host: String::from("192.168.1.10"),
        ports_str: String::from("1, 2"),
        close_ports_str: String::from("2, 1"),
        delay: 250,
    }));
    assert_eq!(c.host, "192.168.1.10");
    assert_eq!(c.ports_str, "1, 2");
    assert_eq!(c.close_ports_str, "2, 1");
    assert_eq!(c.delay, 250);
}

#[test]
fn a_missing_or_unreadable_record_falls_back_to_defaults() {
    let c = config_or_default(None);
    assert_eq!(c.host, "127.0.0.1");
    assert_eq!(c.delay, 1000);
}

#[test]
fn snapshot_of_a_freshly_loaded_record_round_trips_twice() {
    let original = Config {
        host: String::from("10.0.0.1"),
        ports_str: String::from("7, 8, 9"),
        close_ports_str: String::from("9, 8, 7"),
        delay: 42,
    };
    // load → state → save: the persisted record is reproduced field for field
    let (k1, _, _) = Knocker::from_config(original.duplicate());
    let first = k1.config_snapshot();
    assert_eq!(first.host, original.host);
    assert_eq!(first.ports_str, original.ports_str);
    assert_eq!(first.close_ports_str, original.close_ports_str);
    assert_eq!(first.delay, original.delay);
    // and doing it again yields the identical record once more
    let (k2, _, _) = Knocker::from_config(first.duplicate());
    let second = k2.config_snapshot();
    assert_eq!(second.host, first.host);
    assert_eq!(second.ports_str, first.ports_str);
    assert_eq!(second.close_ports_str, first.close_ports_str);
    assert_eq!(second.delay, first.delay);
}

#[test]
fn editing_fields_updates_the_snapshot_and_reparses_lists() {
    let (mut k, _, _) = Knocker::from_config(Config::default());
    k.set_host(String::from("example.net"));
    let diags = k.set_ports_str(String::from("80, oops, 443"));
    assert_eq!(diags.len(), 1);
    assert_eq!(diags[0].position, 2);
    assert_eq!(k.ports, vec![80, 443]);
    assert!(k.set_delay_str("75"));
    assert_eq!(k.delay, 75);
    assert!(!k.set_delay_str("soon"));
    assert_eq!(k.delay, 75);

    let c = k.config_snapshot();
    assert_eq!(c.host, "example.net");
    assert_eq!(c.ports_str, "80, oops, 443");
    assert_eq!(c.delay, 75);
}

#[test]
fn starting_with_an_empty_parsed_list_is_rejected() {
    let (mut k, _, _) = Knocker::from_config(Config {
        host: String::from("127.0.0.1"),
        ports_str: String::from(" , "),
        close_ports_str: String::from("1000"),
        delay: 1,
    });
    assert!(k.ports.is_empty());
    assert!(!k.start_open());
    assert!(k.start_close());
}
