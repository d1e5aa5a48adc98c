use firebase_rs::params::{Params, ParamsError};

#[test]
fn check_params() {
    let mut param = Params::new("https://github.com/emreyalvac".to_string());
    param.add_param("param_1", "value_1");
    param.add_param("param_2", "value_2");

    assert_eq!(
        param.finish().unwrap(),
        "https://github.com/emreyalvac?param_1=%22value_1%22&param_2=%22value_2%22"
    )
}

#[test]
fn order_by_wraps_key_in_quotes() {
    let mut param = Params::new("https://db.example.com/users.json".to_string());
    param.order_by("age");
    assert_eq!(param.finish().unwrap(), "https://db.example.com/users.json?orderBy=%22age%22");
}

#[test]
fn limits_are_plain_decimal() {
    let mut param = Params::new("https://db.example.com/users.json".to_string());
    param.limit_to_first(5);
    param.limit_to_last(0);
    assert_eq!(
        param.finish().unwrap(),
        "https://db.example.com/users.json?limitToFirst=5&limitToLast=0"
    );
}

#[test]
fn range_bounds_are_plain_decimal() {
    let mut param = Params::new("https://db.example.com/users.json".to_string());
    param.start_at(17);
    param.end_at(4294967295);
    assert_eq!(
        param.finish().unwrap(),
        "https://db.example.com/users.json?startAt=17&endAt=4294967295"
    );
}

#[test]
fn equal_to_encodes_like_add_param() {
    let mut param = Params::new("https://db.example.com/users.json".to_string());
    param.equal_to("bob");
    assert_eq!(param.finish().unwrap(), "https://db.example.com/users.json?equalTo=%22bob%22");
}

#[test]
fn shallow_takes_bare_boolean() {
    let mut a = Params::new("https://db.example.com/users.json".to_string());
    a.shallow(true);
    assert_eq!(a.finish().unwrap(), "https://db.example.com/users.json?shallow=true");

    let mut b = Params::new("https://db.example.com/users.json".to_string());
    b.shallow(false);
    assert_eq!(b.finish().unwrap(), "https://db.example.com/users.json?shallow=false");
}

#[test]
fn format_records_export() {
    let mut param = Params::new("https://db.example.com/users.json".to_string());
    param.format();
    assert_eq!(param.finish().unwrap(), "https://db.example.com/users.json?orderBy=export");
}

#[test]
fn builders_chain() {
    let mut param = Params::new("https://db.example.com/users.json".to_string());
    param.order_by("age").limit_to_first(2);
    assert_eq!(
        param.finish().unwrap(),
        "https://db.example.com/users.json?orderBy=%22age%22&limitToFirst=2"
    );
}

#[test]
fn invalid_base_address_is_rejected() {
    let mut param = Params::new("not a url".to_string());
    param.add_param("k", "v");
    assert_eq!(param.finish(), Err(ParamsError::InvalidUrl));
}

#[test]
fn no_pairs_returns_parsed_base() {
    let param = Params::new("https://db.example.com/users.json".to_string());
    assert_eq!(param.finish().unwrap(), "https://db.example.com/users.json");
}
