use freader::config::{Config, Error, Variable};

fn variable(name: &str, value: &str) -> Variable {
    Variable { name: name.to_string(), value: Some(value.to_string()) }
}

fn full() -> Vec<Variable> {
    vec![
        variable("PATH", "/bin"),
        variable("GGRRSS_HOST", "localhost"),
        variable("GGRRSS_PORT", "8080"),
        variable("GGRRSS_USERNAME", "user"),
        variable("GGRRSS_PASSWORD", "secret"),
    ]
}

#[test]
fn config_from_a_complete_environment() {
    let config = Config::from_env(&full()).ok().unwrap();
    assert_eq!(config.http_host, "localhost");
    assert_eq!(config.http_port, 8080);
    assert_eq!(config.auth_username, "user");
    assert_eq!(config.auth_password, "secret");
    assert_eq!(config.sqlite_db, "file:ggrrss.sqlite");
    let copy = config.clone();
    assert_eq!(copy.http_port, 8080);
    assert_eq!(copy.sqlite_db, config.sqlite_db);
}

#[test]
fn config_takes_the_named_database() {
    let mut env = full();
    env.push(variable("GGRRSS_SQLITE_DB", "file:other.sqlite"));
    let config = Config::from_env(&env).ok().unwrap();
    assert_eq!(config.sqlite_db, "file:other.sqlite");
}

#[test]
fn config_takes_the_first_of_two_variables() {
    let mut env = full();
    env.push(variable("GGRRSS_HOST", "elsewhere"));
    let config = Config::from_env(&env).ok().unwrap();
    assert_eq!(config.http_host, "localhost");
}

#[test]
fn config_reports_the_first_missing_variable() {
    let env = vec![variable("GGRRSS_HOST", "localhost"), variable("GGRRSS_PASSWORD", "secret")];
    match Config::from_env(&env) {
        Err(Error::Missing(key)) => assert_eq!(key, "GGRRSS_PORT"),
        other => panic!("{:?}", other),
    }
    match Config::from_env(&Vec::new()) {
        Err(Error::Missing(key)) => assert_eq!(key, "GGRRSS_HOST"),
        other => panic!("{:?}", other),
    }
}

#[test]
fn config_reports_a_value_that_is_no_text() {
    let mut env = full();
    env[3] = Variable { name: "GGRRSS_USERNAME".to_string(), value: None };
    match Config::from_env(&env) {
        Err(Error::ValueNotUnicode(key)) => assert_eq!(key, "GGRRSS_USERNAME"),
        other => panic!("{:?}", other),
    }
    env.push(Variable { name: "GGRRSS_SQLITE_DB".to_string(), value: None });
    env[3] = variable("GGRRSS_USERNAME", "user");
    match Config::from_env(&env) {
        Err(Error::ValueNotUnicode(key)) => assert_eq!(key, "GGRRSS_SQLITE_DB"),
        other => panic!("{:?}", other),
    }
}

#[test]
fn config_reports_a_port_that_is_no_number() {
    for (text, reason) in [
        ("http", "invalid digit found in string"),
        ("", "cannot parse integer from empty string"),
        ("65536", "number too large to fit in target type"),
        ("-1", "invalid digit found in string"),
    ] {
        let mut env = full();
        env[2] = variable("GGRRSS_PORT", text);
        match Config::from_env(&env) {
            Err(Error::ValueConversion(key, why)) => {
                assert_eq!(key, "GGRRSS_PORT");
                assert_eq!(why, reason);
                assert_eq!(why, text.parse::<u16>().unwrap_err().to_string());
            }
            other => panic!("{:?}", other),
        }
    }
}

#[test]
fn config_variable_lookup() {
    let env = full();
    assert_eq!(Config::var(&env, "HOST").ok().unwrap(), "localhost");
    assert!(matches!(Config::var(&env, "PATH"), Err(Error::Missing(_))));
    assert_eq!(Config::var_or(&env, "HOST", "other").ok().unwrap(), "localhost");
    assert_eq!(Config::var_or(&env, "NOTHING", "other").ok().unwrap(), "other");
}

#[test]
fn config_error_messages() {
    assert_eq!(
        Error::Missing("GGRRSS_HOST".to_string()).message(),
        "Missing value for GGRRSS_HOST"
    );
    assert_eq!(
        Error::ValueNotUnicode("GGRRSS_HOST".to_string()).message(),
        "Could not parse GGRRSS_HOST's value as a UTF-8 string"
    );
    assert_eq!(
        Error::ValueConversion("GGRRSS_PORT".to_string(), "bad".to_string()).message(),
        "Could not parse GGRRSS_PORT's value: bad"
    );
}
