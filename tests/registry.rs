use shortcode::codegen::{code_char, gen_key, KEY_LEN};
use shortcode::policy::{owner_for, WriteOutcome};
use shortcode::registry::Registry;

fn is_alnum(s: &str) -> bool {
    s.chars().all(|c| c.is_ascii_alphanumeric())
}

#[test]
fn scenario_example_com() {
    let mut reg = Registry::new();
    let value = "https://example.com".to_string();
    let c1 = reg.allocate(&value, &None).unwrap();
    assert_eq!(c1.chars().count(), 4);
    assert!(is_alnum(&c1));
    assert_eq!(reg.resolve(&c1), Ok(Some("https://example.com".to_string())));
    assert_eq!(reg.visit_count(&c1), Some(1));
    assert_eq!(reg.resolve(&c1), Ok(Some("https://example.com".to_string())));
    assert_eq!(reg.visit_count(&c1), Some(2));
    if c1 != "zzzz" {
        assert_eq!(reg.resolve(&"zzzz".to_string()), Ok(None));
    }
}

#[test]
fn new_record_starts_unvisited() {
    let mut reg = Registry::new();
    let c = reg.allocate(&"payload".to_string(), &None).unwrap();
    assert_eq!(reg.visit_count(&c), Some(0));
    assert_eq!(reg.owner_of(&c), Some(None));
    assert_eq!(reg.len(), 1);
}

#[test]
fn allocations_are_unique() {
    let mut reg = Registry::new();
    let mut codes: Vec<String> = Vec::new();
    for i in 0..300 {
        let c = reg.allocate(&format!("value-{}", i), &None).unwrap();
        assert!(c.chars().count() >= 4 && c.chars().count() <= 14);
        assert!(is_alnum(&c));
        codes.push(c);
    }
    let mut sorted = codes.clone();
    sorted.sort();
    sorted.dedup();
    assert_eq!(sorted.len(), 300);
    assert_eq!(reg.len(), 300);
}

#[test]
fn same_value_gets_distinct_codes() {
    let mut reg = Registry::new();
    let v = "https://example.com".to_string();
    let a = reg.allocate(&v, &None).unwrap();
    let b = reg.allocate(&v, &None).unwrap();
    assert_ne!(a, b);
    assert_eq!(reg.len(), 2);
}

#[test]
fn round_trip_each_value() {
    let mut reg = Registry::new();
    let values = vec!["https://a.example/x", "", "raw pasted\ncontent", "ünïcødé"];
    let mut codes = Vec::new();
    for v in &values {
        codes.push(reg.allocate(&v.to_string(), &Some("bob".to_string())).unwrap());
    }
    for (c, v) in codes.iter().zip(values.iter()) {
        assert_eq!(reg.resolve(c), Ok(Some(v.to_string())));
    }
}

#[test]
fn counter_counts_every_resolution() {
    let mut reg = Registry::new();
    let c = reg.allocate(&"https://example.org".to_string(), &None).unwrap();
    let other = reg.allocate(&"https://other.org".to_string(), &None).unwrap();
    for _ in 0..25 {
        assert_eq!(reg.resolve(&c), Ok(Some("https://example.org".to_string())));
    }
    assert_eq!(reg.visit_count(&c), Some(25));
    assert_eq!(reg.visit_count(&other), Some(0));
}

#[test]
fn not_found_creates_nothing() {
    let mut reg = Registry::new();
    reg.allocate(&"v".to_string(), &None).unwrap();
    let missing = "zzzz".to_string();
    if reg.visit_count(&missing).is_some() {
        return;
    }
    assert_eq!(reg.resolve(&missing), Ok(None));
    assert_eq!(reg.resolve(&missing), Ok(None));
    assert_eq!(reg.len(), 1);
    assert_eq!(reg.visit_count(&missing), None);
    assert_eq!(
        reg.try_create(&missing, &"later".to_string(), &None),
        WriteOutcome::Created
    );
    assert_eq!(reg.resolve(&missing), Ok(Some("later".to_string())));
}

#[test]
fn try_create_reports_collision() {
    let mut reg = Registry::new();
    let code = "abcd".to_string();
    assert_eq!(
        reg.try_create(&code, &"first".to_string(), &None),
        WriteOutcome::Created
    );
    assert_eq!(
        reg.try_create(&code, &"second".to_string(), &Some("eve".to_string())),
        WriteOutcome::Collision
    );
    assert_eq!(reg.len(), 1);
    assert_eq!(reg.resolve(&code), Ok(Some("first".to_string())));
    assert_eq!(reg.owner_of(&code), Some(None));
}

#[test]
fn owner_defaults_to_caller() {
    assert_eq!(owner_for(None, "10.0.0.5".to_string()), "10.0.0.5");
    assert_eq!(
        owner_for(Some("alice".to_string()), "10.0.0.5".to_string()),
        "alice"
    );
    let mut reg = Registry::new();
    let anon = owner_for(None, "10.0.0.5".to_string());
    let c1 = reg.allocate(&"https://one".to_string(), &Some(anon)).unwrap();
    let named = owner_for(Some("alice".to_string()), "10.0.0.5".to_string());
    let c2 = reg.allocate(&"https://two".to_string(), &Some(named)).unwrap();
    assert_eq!(reg.owner_of(&c1), Some(Some("10.0.0.5".to_string())));
    assert_eq!(reg.owner_of(&c2), Some(Some("alice".to_string())));
    assert_eq!(reg.owner_of(&"nope-nope".to_string()), None);
}

#[test]
fn gen_key_length_and_alphabet() {
    for extra in 0..6 {
        let k = gen_key(extra);
        assert_eq!(k.chars().count(), KEY_LEN + extra);
        assert!(is_alnum(&k));
    }
}

#[test]
fn gen_key_varies() {
    let mut keys: Vec<String> = (0..50).map(|_| gen_key(4)).collect();
    keys.sort();
    keys.dedup();
    assert!(keys.len() > 1);
}

#[test]
fn code_char_alphabet_order() {
    assert_eq!(code_char(0), 'a');
    assert_eq!(code_char(25), 'z');
    assert_eq!(code_char(26), 'A');
    assert_eq!(code_char(51), 'Z');
    assert_eq!(code_char(52), '0');
    assert_eq!(code_char(61), '9');
    let all: String = (0..62).map(code_char).collect();
    assert_eq!(
        all,
        "abcdefghijklmnopqrstuvwxyzABCDEFGHIJKLMNOPQRSTUVWXYZ0123456789"
    );
}
