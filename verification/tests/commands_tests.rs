use passprompt::commands::add;
use passprompt::commands::config as settings;
use passprompt::commands::list;
use passprompt::commands::remove;
use passprompt::commands::CommandResult;
use passprompt::config::Config;
use passprompt::entry::{PasswordEntry, Salt};
use passprompt::error::PasspromptError;
use passprompt::wait::Wait;

fn entry(tag: u8) -> PasswordEntry {
    PasswordEntry {
        salt: Salt::from_bytes([tag; 16]),
        hash: passprompt::entry::Hash::from_bytes([tag; 24]),
    }
}

fn config_with(names: &[&str]) -> Config {
    let mut config = Config::new();
    for (i, name) in names.iter().enumerate() {
        config.passwords.insert(name.to_string(), entry(i as u8));
    }
    config
}

const SAVED: CommandResult = CommandResult { save_config: true, success: true };

#[test]
fn new_config_has_defaults() {
    let config = Config::new();
    assert!(config.wait.is_none());
    assert!(config.retries.is_none());
    assert!(config.passwords.is_empty());
    assert_eq!(config.cooldown_secs(), Some(0));
    assert_eq!(config.extra_tries(), 0);
}

#[test]
fn list_gives_sorted_names_and_saves_nothing() {
    let config = config_with(&["email", "bank", "door"]);
    let listing = list::command(&config);
    assert_eq!(listing.names, vec!["bank".to_string(), "door".to_string(), "email".to_string()]);
    assert_eq!(listing.result, CommandResult { save_config: false, success: true });
}

#[test]
fn list_of_nothing_is_empty() {
    let listing = list::command(&Config::new());
    assert!(listing.names.is_empty());
    assert_eq!(listing.result, CommandResult { save_config: false, success: true });
}

#[test]
fn remove_takes_the_named_entries() {
    let mut config = config_with(&["email", "bank", "door"]);
    config.retries = Some(2);
    let r = remove::command(
        &mut config,
        remove::Args { all: false, entries: vec!["bank", "nothing", "door", "bank"] },
    );
    assert_eq!(r, SAVED);
    assert_eq!(config.passwords.names(), vec!["email".to_string()]);
    assert_eq!(config.retries, Some(2));
}

#[test]
fn remove_without_names_removes_nothing() {
    let mut config = config_with(&["email", "bank"]);
    let r = remove::command(&mut config, remove::Args { all: false, entries: vec![] });
    assert_eq!(r, SAVED);
    assert_eq!(config.passwords.len(), 2);
}

#[test]
fn remove_all_takes_everything() {
    let mut config = config_with(&["email", "bank", "door"]);
    config.wait = Some(Wait::new(0, 4, 0));
    let r = remove::command(&mut config, remove::Args { all: true, entries: vec!["email"] });
    assert_eq!(r, SAVED);
    assert!(config.passwords.is_empty());
    assert_eq!(config.wait.unwrap().as_secs(), 14400);
    assert!(list::command(&config).names.is_empty());
}

#[test]
fn config_sets_retries() {
    let mut config = Config::new();
    let reply = settings::command(
        &mut config,
        settings::Args { key: "retries".to_string(), value: Some("3".to_string()) },
    )
    .unwrap();
    assert!(reply.output.is_none());
    assert_eq!(reply.result, SAVED);
    assert_eq!(config.retries, Some(3));
    assert!(config.wait.is_none());
}

#[test]
fn config_sets_wait() {
    let mut config = Config::new();
    settings::command(
        &mut config,
        settings::Args { key: "wait".to_string(), value: Some(" 1d 12h ".to_string()) },
    )
    .unwrap();
    assert_eq!(config.wait.unwrap().as_secs(), 36 * 3600);
    assert!(config.retries.is_none());
}

#[test]
fn config_shows_values() {
    let mut config = Config::new();
    let reply = settings::command(
        &mut config,
        settings::Args { key: "retries".to_string(), value: None },
    )
    .unwrap();
    assert_eq!(reply.output.unwrap(), "0");
    assert_eq!(reply.result, SAVED);
    let reply =
        settings::command(&mut config, settings::Args { key: "wait".to_string(), value: None })
            .unwrap();
    assert_eq!(reply.output.unwrap(), "");
    config.retries = Some(12);
    config.wait = Some(Wait::new(1, 0, 30));
    let reply = settings::command(
        &mut config,
        settings::Args { key: "retries".to_string(), value: None },
    )
    .unwrap();
    assert_eq!(reply.output.unwrap(), "12");
    let reply =
        settings::command(&mut config, settings::Args { key: "wait".to_string(), value: None })
            .unwrap();
    assert_eq!(reply.output.unwrap(), "1d 30m");
    assert_eq!(config.retries, Some(12));
}

#[test]
fn config_refuses_unknown_key() {
    let mut config = Config::new();
    for value in [None, Some("1".to_string())] {
        match settings::command(&mut config, settings::Args { key: "colour".to_string(), value }) {
            Err(PasspromptError::UnknownConfigOption(key)) => assert_eq!(key, "colour"),
            Ok(_) => panic!("accepted"),
            Err(other) => panic!("{:?}", other),
        }
    }
    match settings::command(
        &mut config,
        settings::Args { key: "Retries".to_string(), value: Some("1".to_string()) },
    ) {
        Err(PasspromptError::UnknownConfigOption(key)) => assert_eq!(key, "Retries"),
        Ok(_) => panic!("accepted"),
        Err(other) => panic!("{:?}", other),
    }
}

#[test]
fn config_refuses_bad_values_and_changes_nothing() {
    let mut config = Config::new();
    config.retries = Some(1);
    config.wait = Some(Wait::new(0, 1, 0));
    match settings::command(
        &mut config,
        settings::Args { key: "retries".to_string(), value: Some("many".to_string()) },
    ) {
        Err(PasspromptError::IllegalArgument { name, value }) => {
            assert_eq!((name.as_str(), value.as_str()), ("retries", "many"));
        }
        Ok(_) => panic!("accepted"),
        Err(other) => panic!("{:?}", other),
    }
    match settings::command(
        &mut config,
        settings::Args { key: "wait".to_string(), value: Some("soon".to_string()) },
    ) {
        Err(PasspromptError::UnparseableWaitFormat(text)) => assert_eq!(text, "soon"),
        Ok(_) => panic!("accepted"),
        Err(other) => panic!("{:?}", other),
    }
    assert_eq!(config.retries, Some(1));
    assert_eq!(config.wait.unwrap().as_secs(), 3600);
}

#[test]
fn set_changes_one_setting() {
    let mut config = Config::new();
    assert!(passprompt::commands::set::command(
        &mut config,
        passprompt::commands::set::Args { key: "retries".to_string(), value: "+2".to_string() }
    )
    .unwrap());
    assert_eq!(config.retries, Some(2));
    assert!(passprompt::commands::set::command(&mut config, passprompt::commands::set::Args { key: "wait".to_string(), value: "4h".to_string() })
        .unwrap());
    assert_eq!(config.wait.unwrap().as_secs(), 14400);
    assert!(matches!(
        passprompt::commands::set::command(&mut config, passprompt::commands::set::Args { key: "x".to_string(), value: "1".to_string() }),
        Err(PasspromptError::UnknownConfigOption(_))
    ));
    assert!(matches!(
        passprompt::commands::set::command(&mut config, passprompt::commands::set::Args { key: "retries".to_string(), value: "-1".to_string() }),
        Err(PasspromptError::IllegalArgument { .. })
    ));
}

#[test]
fn add_asks_for_the_name_when_none_is_given() {
    let config = Config::new();
    let stage = add::begin(&config, add::Args { name: None });
    assert!(matches!(stage, add::Stage::Naming));
    assert_eq!(add::question(&stage).unwrap(), "name: ");
    assert!(!add::is_secret(&stage));
}

#[test]
fn add_of_a_new_name_goes_to_the_password() {
    let mut config = config_with(&["bank"]);
    let stage = add::begin(&config, add::Args { name: Some("email".to_string()) });
    assert!(matches!(&stage, add::Stage::Entering { name } if name == "email"));
    assert_eq!(add::question(&stage).unwrap(), "password: ");
    assert!(add::is_secret(&stage));
    let stage = add::reply(&mut config, stage, "secret2".to_string()).unwrap();
    assert!(matches!(stage, add::Stage::Done(SAVED)));
    assert!(add::question(&stage).is_none());
    assert!(config.passwords.verify("email", "secret2".to_string()).unwrap());
    assert_eq!(config.passwords.names(), vec!["bank".to_string(), "email".to_string()]);
}

#[test]
fn add_of_a_stored_name_asks_before_overwriting() {
    let mut config = config_with(&["bank"]);
    let stage = add::reply(&mut config, add::Stage::Naming, "bank".to_string()).unwrap();
    assert!(matches!(&stage, add::Stage::Confirming { name } if name == "bank"));
    assert_eq!(
        add::question(&stage).unwrap(),
        "there is already a password named 'bank', overwrite (y/N)? "
    );
    assert!(!add::is_secret(&stage));
    let stage = add::reply(&mut config, stage, "Y".to_string()).unwrap();
    assert!(matches!(&stage, add::Stage::Entering { name } if name == "bank"));
    let stage = add::reply(&mut config, stage, "new".to_string()).unwrap();
    assert!(matches!(stage, add::Stage::Done(SAVED)));
    assert!(config.passwords.verify("bank", "new".to_string()).unwrap());
    assert_eq!(config.passwords.len(), 1);
}

#[test]
fn declined_overwrite_is_a_success_that_saves_nothing() {
    for answer in ["n", "N", "", "yes", "Y ", " y", "yy"] {
        let mut config = config_with(&["bank"]);
        let stage = add::named(&config, "bank".to_string());
        let stage = add::reply(&mut config, stage, answer.to_string()).unwrap();
        assert!(
            matches!(stage, add::Stage::Done(CommandResult { save_config: false, success: true })),
            "{:?}",
            answer
        );
        assert_eq!(config.passwords.get("bank").unwrap().salt.as_bytes(), &[0u8; 16]);
    }
}

#[test]
fn add_refuses_an_empty_password() {
    let mut config = Config::new();
    let stage = add::named(&config, "bank".to_string());
    let r = add::reply(&mut config, stage, String::new());
    assert!(matches!(r, Err(PasspromptError::EmptyPassword)));
    assert!(config.passwords.is_empty());
}

#[test]
fn finished_add_stays_finished() {
    let mut config = Config::new();
    let done = add::Stage::Done(SAVED);
    let stage = add::reply(&mut config, done, "anything".to_string()).unwrap();
    assert!(matches!(stage, add::Stage::Done(SAVED)));
    assert!(config.passwords.is_empty());
}
