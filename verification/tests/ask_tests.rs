use passprompt::commands::ask::{consults_state, draw, open, select, Args, Opening, Target, Which};
use passprompt::commands::round::{Action, Session, Step};
use passprompt::commands::{list, remove, CommandResult};
use passprompt::config::Config;
use passprompt::entry::{PasswordEntry, Salt};
use passprompt::error::PasspromptError;
use passprompt::state::State;
use passprompt::wait::Wait;

const HOUR: u64 = 3600;
const T: u64 = 1_700_000_000;

fn entry(tag: u8) -> PasswordEntry {
    PasswordEntry {
        salt: Salt::from_bytes([tag; 16]),
        hash: passprompt::entry::Hash::from_bytes([tag; 24]),
    }
}

fn tagged(names: &[&str]) -> Config {
    let mut config = Config::new();
    for (i, name) in names.iter().enumerate() {
        config.passwords.insert(name.to_string(), entry(i as u8));
    }
    config
}

fn bank_and_email() -> Config {
    let mut config = Config::new();
    config.passwords.add("bank".to_string(), "secret1".to_string(), None).unwrap();
    config.passwords.add("email".to_string(), "secret2".to_string(), None).unwrap();
    config
}

fn names(targets: &[Target]) -> Vec<String> {
    targets.iter().map(|t| t.name.clone()).collect()
}

fn which(count: Option<&str>, name: Option<&str>) -> Result<Which, PasspromptError> {
    Which::from_cli_args("count".to_string(), count.map(str::to_string), name.map(str::to_string))
}

fn prompt_for(step: &Step, name: &str) -> bool {
    matches!(&step.action, Action::Prompt { name: n } if n == name)
}

fn report_for(step: &Step, name: &str, outcome: bool) -> bool {
    matches!(&step.action, Action::Report { name: n, success } if n == name && *success == outcome)
}

fn done_with(step: &Step, outcome: bool) -> bool {
    matches!(&step.action, Action::Done(CommandResult { save_config: true, success }) if *success == outcome)
}

#[test]
fn no_arguments_mean_one_at_random() {
    assert!(matches!(which(None, None), Ok(Which::Any(1))));
}

#[test]
fn a_name_means_that_entry() {
    assert!(matches!(which(None, Some("bank")), Ok(Which::Specific(n)) if n == "bank"));
    assert!(matches!(which(None, Some("all")), Ok(Which::Specific(n)) if n == "all"));
}

#[test]
fn a_count_means_that_many() {
    assert!(matches!(which(Some("3"), None), Ok(Which::Any(3))));
    assert!(matches!(which(Some("0"), None), Ok(Which::Any(0))));
    assert!(matches!(which(Some("+7"), None), Ok(Which::Any(7))));
    assert!(matches!(which(Some("007"), None), Ok(Which::Any(7))));
}

#[test]
fn all_in_any_case_means_all() {
    for word in ["all", "ALL", "All", "aLl", "alL"] {
        assert!(matches!(which(Some(word), None), Ok(Which::All)), "{:?}", word);
    }
}

#[test]
fn another_count_is_illegal() {
    for word in ["", "al", "alll", "all ", "-1", "1.5", "many", "99999999999999999999999", "ÀLL"] {
        match which(Some(word), None) {
            Err(PasspromptError::IllegalArgument { name, value }) => {
                assert_eq!((name.as_str(), value.as_str()), ("count", word));
            }
            other => panic!("{:?} gave {:?}", word, other),
        }
    }
}

#[test]
fn select_follows_the_order() {
    let config = tagged(&["email", "bank", "door"]);
    let all = select(&config.passwords, &vec![2, 0, 1], 3);
    assert_eq!(names(&all), vec!["email", "bank", "door"]);
    assert_eq!(all[0].entry.salt.as_bytes(), &[0u8; 16]);
    assert_eq!(all[1].entry.salt.as_bytes(), &[1u8; 16]);
    assert_eq!(all[2].entry.salt.as_bytes(), &[2u8; 16]);
    assert_eq!(names(&select(&config.passwords, &vec![2, 0, 1], 2)), vec!["email", "bank"]);
    assert_eq!(names(&select(&config.passwords, &vec![1, 2, 0], 1)), vec!["door"]);
    assert!(select(&config.passwords, &vec![1, 2, 0], 0).is_empty());
    assert_eq!(names(&select(&config.passwords, &vec![1, 2, 0], 100)), vec!["door", "email", "bank"]);
}

#[test]
fn draw_gives_distinct_stored_names() {
    let config = tagged(&["a", "b", "c", "d", "e", "f"]);
    for count in 0..6 {
        let targets = draw(&config.passwords, count);
        assert_eq!(targets.len(), count);
        let mut picked = names(&targets);
        picked.sort();
        picked.dedup();
        assert_eq!(picked.len(), count);
        for t in targets.iter() {
            assert_eq!(
                t.entry.salt.as_bytes(),
                config.passwords.get(&t.name).unwrap().salt.as_bytes()
            );
        }
    }
}

#[test]
fn draw_of_more_than_is_stored_gives_every_name_once() {
    let config = tagged(&["a", "b", "c", "d", "e", "f"]);
    for count in [6, 7, 100, usize::MAX] {
        let mut picked = names(&draw(&config.passwords, count));
        picked.sort();
        assert_eq!(picked, config.passwords.names());
    }
}

#[test]
fn draw_shuffles() {
    let letters: Vec<String> = (0..26u8).map(|i| ((b'a' + i) as char).to_string()).collect();
    let refs: Vec<&str> = letters.iter().map(|s| s.as_str()).collect();
    let config = tagged(&refs);
    let mut moved = false;
    for _ in 0..8 {
        if names(&draw(&config.passwords, 26)) != letters {
            moved = true;
        }
    }
    assert!(moved);
}

#[test]
fn draw_from_nothing_is_nothing() {
    assert!(draw(&Config::new().passwords, 3).is_empty());
}

#[test]
fn empty_store_fails_for_every_mode() {
    let config = Config::new();
    let state = State::new();
    for always in [false, true] {
        for w in [Which::Any(1), Which::Any(0), Which::All, Which::Specific("bank".to_string())] {
            let r = open(&config, &state, &Args { always, which: w }, T);
            assert!(matches!(r, Err(PasspromptError::NoPasswordsDefined)));
        }
    }
}

#[test]
fn remove_all_then_list_then_ask() {
    let mut config = tagged(&["bank", "email"]);
    remove::command(&mut config, remove::Args { all: true, entries: vec![] });
    assert!(list::command(&config).names.is_empty());
    let r = open(&config, &State::new(), &Args { always: false, which: Which::Any(1) }, T);
    assert!(matches!(r, Err(PasspromptError::NoPasswordsDefined)));
}

#[test]
fn unknown_name_is_handed_back() {
    let config = tagged(&["bank"]);
    let opening = open(
        &config,
        &State::new(),
        &Args { always: false, which: Which::Specific("email".to_string()) },
        T,
    )
    .unwrap();
    assert!(matches!(&opening, Opening::Unknown(n) if n == "email"));
    assert_eq!(opening.result(), Some(CommandResult { save_config: false, success: false }));
}

#[test]
fn cooldown_holds_the_command_back() {
    let mut config = tagged(&["bank", "email"]);
    config.wait = Some(Wait::new(0, 4, 0));
    let state = State { last_asked: Some(T) };
    let args = Args { always: false, which: Which::Any(1) };
    let opening = open(&config, &state, &args, T + 3 * HOUR).unwrap();
    assert!(matches!(opening, Opening::CoolingDown));
    assert_eq!(opening.result(), Some(CommandResult { save_config: false, success: true }));
    assert_eq!(state.last_asked, Some(T));
    let all = Args { always: false, which: Which::All };
    assert!(matches!(open(&config, &state, &all, T + 3 * HOUR).unwrap(), Opening::CoolingDown));
    assert!(matches!(open(&config, &state, &args, T + 4 * HOUR - 1).unwrap(), Opening::CoolingDown));
    assert!(matches!(open(&config, &state, &args, T).unwrap(), Opening::CoolingDown));
    assert!(matches!(open(&config, &state, &args, 0).unwrap(), Opening::CoolingDown));
}

#[test]
fn cooldown_passes() {
    let mut config = tagged(&["bank", "email"]);
    config.wait = Some(Wait::new(0, 4, 0));
    let mut state = State { last_asked: Some(T) };
    let args = Args { always: false, which: Which::Any(1) };
    let opening = open(&config, &state, &args, T + 5 * HOUR).unwrap();
    assert!(opening.result().is_none());
    let targets = match opening {
        Opening::Ask(targets) => targets,
        _ => panic!("not asked"),
    };
    assert_eq!(targets.len(), 1);
    let (_, step) = Session::start(targets, config.extra_tries(), &mut state, T + 5 * HOUR);
    assert!(matches!(step.action, Action::Prompt { .. }));
    assert!(step.persist);
    assert_eq!(state.last_asked, Some(T + 5 * HOUR));
    assert!(matches!(open(&config, &State { last_asked: Some(T) }, &args, T + 4 * HOUR).unwrap(), Opening::Ask(_)));
}

#[test]
fn cooldown_is_skipped_when_told_to_ask_always() {
    let mut config = tagged(&["bank", "email"]);
    config.wait = Some(Wait::new(0, 4, 0));
    let state = State { last_asked: Some(T) };
    let args = Args { always: true, which: Which::All };
    match open(&config, &state, &args, T + HOUR).unwrap() {
        Opening::Ask(targets) => assert_eq!(targets.len(), 2),
        _ => panic!("not asked"),
    }
}

#[test]
fn cooldown_is_skipped_for_a_named_entry() {
    let mut config = tagged(&["bank", "email"]);
    config.wait = Some(Wait::new(0, 4, 0));
    let state = State { last_asked: Some(T) };
    let args = Args { always: false, which: Which::Specific("email".to_string()) };
    match open(&config, &state, &args, T + HOUR).unwrap() {
        Opening::Ask(targets) => {
            assert_eq!(names(&targets), vec!["email"]);
            assert_eq!(targets[0].entry.salt.as_bytes(), &[1u8; 16]);
        }
        _ => panic!("not asked"),
    }
}

#[test]
fn never_asked_means_no_cooldown() {
    let mut config = tagged(&["bank"]);
    config.wait = Some(Wait::new(100, 0, 0));
    let args = Args { always: false, which: Which::Any(1) };
    assert!(matches!(open(&config, &State::new(), &args, 5).unwrap(), Opening::Ask(_)));
}

#[test]
fn no_wait_means_always_eligible() {
    let config = tagged(&["bank"]);
    let args = Args { always: false, which: Which::Any(1) };
    let state = State { last_asked: Some(T) };
    assert!(matches!(open(&config, &state, &args, T).unwrap(), Opening::Ask(_)));
    assert!(matches!(open(&config, &state, &args, T + 1).unwrap(), Opening::Ask(_)));
}

#[test]
fn clock_behind_the_last_question_holds_back() {
    let config = tagged(&["bank"]);
    let args = Args { always: false, which: Which::Any(1) };
    let state = State { last_asked: Some(T) };
    assert!(matches!(open(&config, &state, &args, T - 1).unwrap(), Opening::CoolingDown));
}

#[test]
fn cooldown_beyond_the_clock_never_passes() {
    let mut config = tagged(&["bank"]);
    let args = Args { always: false, which: Which::Any(1) };
    for wait in [
        Wait::new(0, 0, 307445734561825860),
        Wait::new(0, 0, 307445734561825861),
        Wait::new(u64::MAX, 0, 0),
        Wait::new(u64::MAX, u64::MAX, u64::MAX),
    ] {
        config.wait = Some(wait);
        let state = State { last_asked: Some(T) };
        assert!(matches!(open(&config, &state, &args, u64::MAX).unwrap(), Opening::CoolingDown));
        assert!(config.holds_back(&state, u64::MAX));
    }
    config.wait = Some(Wait::new(u64::MAX, 0, 0));
    assert_eq!(config.cooldown_secs(), None);
    let first = State { last_asked: Some(0) };
    assert!(config.holds_back(&first, u64::MAX));
    assert!(matches!(open(&config, &first, &args, u64::MAX).unwrap(), Opening::CoolingDown));
    assert!(!config.holds_back(&State::new(), 0));
    assert!(matches!(open(&config, &State::new(), &args, 0).unwrap(), Opening::Ask(_)));
    config.wait = Some(Wait::new(0, 0, 307445734561825860));
    assert_eq!(config.cooldown_secs(), Some(18446744073709551600));
    assert!(!config.holds_back(&first, 18446744073709551600));
    assert!(config.holds_back(&first, 18446744073709551599));
}

#[test]
fn count_of_nothing_ends_at_once() {
    let config = tagged(&["bank", "email"]);
    let args = Args { always: true, which: Which::Any(0) };
    let opening = open(&config, &State::new(), &args, T).unwrap();
    assert!(matches!(&opening, Opening::Ask(targets) if targets.is_empty()));
    assert_eq!(opening.result(), Some(CommandResult { save_config: true, success: true }));
}

#[test]
fn state_has_a_say_only_at_the_gate() {
    let config = tagged(&["bank"]);
    let any = Args { always: false, which: Which::Any(1) };
    let all = Args { always: false, which: Which::All };
    let always = Args { always: true, which: Which::Any(1) };
    let named = Args { always: false, which: Which::Specific("bank".to_string()) };
    assert!(consults_state(&config, &any));
    assert!(consults_state(&config, &all));
    assert!(!consults_state(&config, &always));
    assert!(!consults_state(&config, &named));
    assert!(!consults_state(&Config::new(), &any));
    assert!(!consults_state(&Config::new(), &named));
}

#[test]
fn count_beyond_the_store_asks_for_all() {
    let config = tagged(&["bank", "email", "door"]);
    let args = Args { always: false, which: Which::Any(10) };
    match open(&config, &State::new(), &args, T).unwrap() {
        Opening::Ask(targets) => {
            let mut picked = names(&targets);
            picked.sort();
            assert_eq!(picked, vec!["bank", "door", "email"]);
        }
        _ => panic!("not asked"),
    }
}

#[test]
fn second_try_within_the_budget_succeeds() {
    let mut config = bank_and_email();
    config.retries = Some(1);
    let mut state = State::new();
    let targets = select(&config.passwords, &vec![0, 1], 1);
    assert_eq!(names(&targets), vec!["bank"]);
    let (mut session, step) = Session::start(targets, config.extra_tries(), &mut state, T);
    assert!(prompt_for(&step, "bank") && step.persist);
    assert_eq!(state.last_asked, Some(T));
    let step = session.answer("wrong".to_string(), &mut state, T + 1);
    assert!(prompt_for(&step, "bank") && !step.persist);
    assert_eq!(state.last_asked, Some(T));
    let step = session.answer("secret1".to_string(), &mut state, T + 2);
    assert!(report_for(&step, "bank", true) && step.persist);
    assert_eq!(state.last_asked, Some(T + 2));
    let step = session.reported(&mut state, T + 3);
    assert!(done_with(&step, true) && !step.persist);
    assert_eq!(state.last_asked, Some(T + 2));
}

#[test]
fn exhausted_budget_fails_and_still_records_the_time() {
    let mut config = bank_and_email();
    config.retries = Some(1);
    let mut state = State { last_asked: Some(5) };
    let args = Args { always: false, which: Which::Specific("bank".to_string()) };
    let targets = match open(&config, &state, &args, T).unwrap() {
        Opening::Ask(targets) => targets,
        _ => panic!("not asked"),
    };
    let (mut session, step) = Session::start(targets, config.extra_tries(), &mut state, T);
    assert!(prompt_for(&step, "bank") && step.persist);
    assert_eq!(state.last_asked, Some(T));
    let step = session.answer("wrong".to_string(), &mut state, T + 1);
    assert!(prompt_for(&step, "bank") && !step.persist);
    let step = session.answer("wrong".to_string(), &mut state, T + 2);
    assert!(report_for(&step, "bank", false) && step.persist);
    assert_eq!(state.last_asked, Some(T + 2));
    let step = session.reported(&mut state, T + 3);
    assert!(done_with(&step, false));
}

#[test]
fn no_retries_mean_one_try() {
    let config = bank_and_email();
    let mut state = State::new();
    let targets = select(&config.passwords, &vec![1, 0], 1);
    let (mut session, step) = Session::start(targets, config.extra_tries(), &mut state, T);
    assert!(prompt_for(&step, "email"));
    let step = session.answer("secret1".to_string(), &mut state, T);
    assert!(report_for(&step, "email", false));
}

#[test]
fn empty_answer_is_a_wrong_answer() {
    let mut config = bank_and_email();
    config.retries = Some(2);
    let mut state = State::new();
    let targets = select(&config.passwords, &vec![0, 1], 1);
    let (mut session, _) = Session::start(targets, config.extra_tries(), &mut state, T);
    assert!(prompt_for(&session.answer(String::new(), &mut state, T), "bank"));
    assert!(prompt_for(&session.answer("x".repeat(100), &mut state, T), "bank"));
    assert!(report_for(&session.answer(String::new(), &mut state, T), "bank", false));
}

#[test]
fn one_failure_fails_the_whole_round() {
    let config = bank_and_email();
    let mut state = State::new();
    let targets = select(&config.passwords, &vec![1, 0], 2);
    let (mut session, step) = Session::start(targets, 0, &mut state, 10);
    assert!(prompt_for(&step, "email"));
    let step = session.answer("secret2".to_string(), &mut state, 11);
    assert!(report_for(&step, "email", true) && step.persist);
    let step = session.reported(&mut state, 12);
    assert!(prompt_for(&step, "bank") && step.persist);
    assert_eq!(state.last_asked, Some(12));
    let step = session.answer("secret2".to_string(), &mut state, 13);
    assert!(report_for(&step, "bank", false) && step.persist);
    assert_eq!(state.last_asked, Some(13));
    let step = session.reported(&mut state, 14);
    assert!(done_with(&step, false) && !step.persist);
    assert_eq!(state.last_asked, Some(13));
}

#[test]
fn all_right_answers_succeed() {
    let config = bank_and_email();
    let mut state = State::new();
    let targets = select(&config.passwords, &vec![0, 1], 2);
    let (mut session, _) = Session::start(targets, 0, &mut state, 10);
    assert!(report_for(&session.answer("secret1".to_string(), &mut state, 11), "bank", true));
    assert!(prompt_for(&session.reported(&mut state, 12), "email"));
    assert!(report_for(&session.answer("secret2".to_string(), &mut state, 13), "email", true));
    assert!(done_with(&session.reported(&mut state, 14), true));
}

#[test]
fn steps_out_of_turn_change_nothing() {
    let config = bank_and_email();
    let mut state = State::new();
    let targets = select(&config.passwords, &vec![0, 1], 1);
    let (mut session, _) = Session::start(targets, 0, &mut state, 10);
    let step = session.reported(&mut state, 11);
    assert!(prompt_for(&step, "bank") && !step.persist);
    assert_eq!(state.last_asked, Some(10));
    assert!(report_for(&session.answer("nope".to_string(), &mut state, 12), "bank", false));
    let step = session.answer("secret1".to_string(), &mut state, 13);
    assert!(report_for(&step, "bank", false) && !step.persist);
    assert_eq!(state.last_asked, Some(12));
    assert!(done_with(&session.reported(&mut state, 14), false));
    let step = session.answer("secret1".to_string(), &mut state, 15);
    assert!(done_with(&step, false) && !step.persist);
    let step = session.reported(&mut state, 16);
    assert!(done_with(&step, false) && !step.persist);
    assert_eq!(state.last_asked, Some(12));
    assert!(done_with(&Step { action: session.pending(), persist: false }, false));
}

#[test]
fn round_without_entries_is_over_at_once() {
    let mut state = State { last_asked: Some(3) };
    let (session, step) = Session::start(Vec::new(), 5, &mut state, T);
    assert!(done_with(&step, true) && !step.persist);
    assert_eq!(state.last_asked, Some(3));
    assert!(matches!(session.pending(), Action::Done(_)));
}

#[test]
fn state_records_the_time() {
    let mut state = State::new();
    assert!(state.last_asked.is_none());
    assert!(!state.is_cooling_down(u64::MAX, 0));
    state.mark_asked(100);
    assert_eq!(state.last_asked, Some(100));
    assert!(state.is_cooling_down(10, 109));
    assert!(!state.is_cooling_down(10, 110));
    assert!(!state.is_cooling_down(0, 100));
    assert!(state.is_cooling_down(1, 100));
    assert!(state.is_cooling_down(u64::MAX, u64::MAX));
}
