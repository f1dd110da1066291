use crust_gather::secrets::{Representation, Secrets};

fn values(v: &[&str]) -> Vec<String> {
    v.iter().map(|s| s.to_string()).collect()
}

#[test]
fn test_secrets_empty() {
    let secrets: Secrets = Secrets::from_values(vec![]);

    assert!(secrets.0.is_empty());
}

#[test]
fn test_secrets_populated() {
    // FOO=foo, BAR=bar, OTHER unset (looked up as the empty string)
    let secrets: Secrets = Secrets::from_values(values(&["foo", "bar", ""]));

    assert_eq!(secrets.0, vec!["foo", "bar"]);
}

#[test]
fn test_strip_secrets() {
    let data = "omit password string".to_string();
    let secrets: Secrets = Secrets::from_values(values(&["password"]));
    let result = secrets.strip(&Representation::new().with_data(data.as_str()));

    assert_eq!(result.data(), "omit xxx string");
}

#[test]
fn test_strip_secrets_from_file() {
    let data = "omit password string with ip 10.10.10.10".to_string();

    let secrets = Secrets::from_file_contents("password\n10.10.10.10");
    let result = secrets.strip(&Representation::new().with_data(data.as_str()));

    assert_eq!(result.data(), "omit xxx string with ip xxx");
}

#[test]
fn strip_replaces_every_occurrence_in_order() {
    let secrets = Secrets::from_values(values(&["ab", "b"]));
    let result = secrets.strip(&Representation::new().with_data("abab b"));
    assert_eq!(result.data(), "xxxxxx xxx");
}

#[test]
fn strip_without_secrets_keeps_data() {
    let secrets = Secrets::from_values(vec![]);
    let result = secrets.strip(&Representation::new().with_data("token=abc"));
    assert_eq!(result.data(), "token=abc");
}

#[test]
fn strip_absent_secret_keeps_data() {
    let secrets = Secrets::from_values(values(&["hunter2", "swordfish"]));
    let result = secrets.strip(&Representation::new().with_data("nothing secret here"));
    assert_eq!(result.data(), "nothing secret here");
}

#[test]
fn strip_leaves_no_secret_without_mask_characters() {
    let secrets = Secrets::from_values(values(&["pass", "10.0.0.1", "ss"]));
    let result = secrets.strip(&Representation::new().with_data("passpass 10.0.0.10.0.0.1 ssss"));
    for s in ["pass", "10.0.0.1", "ss"] {
        assert!(!result.data().contains(s));
    }
}

#[test]
fn strip_can_leave_a_secret_that_holds_the_mask_character() {
    // A secret with an `x` can reappear next to the mask.
    let secrets = Secrets::from_values(values(&["ax"]));
    let result = secrets.strip(&Representation::new().with_data("aax"));
    assert_eq!(result.data(), "axxx");
    assert!(result.data().contains("ax"));
}

#[test]
fn strip_with_empty_secret_from_file_inserts_mask_everywhere() {
    // An empty line in the secrets file is an empty secret, which matches
    // between every two characters, as `str::replace` does.
    let secrets = Secrets::from_file_contents("\nb");
    assert_eq!(secrets.0, vec!["", "b"]);
    let result = secrets.strip(&Representation::new().with_data("ab"));
    assert_eq!(result.data(), "xxxaxxxxxxxxx");
    assert_eq!(result.data(), "ab".replace("", "xxx").replace("b", "xxx"));
}

#[test]
fn secrets_file_lines_handle_crlf_and_final_newline() {
    let secrets = Secrets::from_file_contents("one\r\ntwo\n\nthree\n");
    assert_eq!(secrets.0, vec!["one", "two", "", "three"]);
    let none = Secrets::from_file_contents("");
    assert!(none.0.is_empty());
}

#[test]
fn representation_with_data_replaces_data() {
    let r = Representation::new();
    assert_eq!(r.data(), "");
    let r = r.with_data("a").with_data("b");
    assert_eq!(r.data(), "b");
}

#[test]
fn strip_twice_is_strip_once() {
    let secrets = Secrets::from_values(values(&["pass", "ab"]));
    let once = secrets.strip(&Representation::new().with_data("pass aab passab"));
    let twice = secrets.strip(&once);
    assert_eq!(once.data(), "xxx axxx xxxxxx");
    assert_eq!(twice.data(), once.data());
}
