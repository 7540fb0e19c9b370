use budget_bot::category::Category;
use budget_bot::dialogue::{
    after_category_reply, category_buttons, next_state, route, Command, Handler, MessageLog, Slot,
    State,
};

const COMMANDS: [Option<Command>; 5] = [
    None,
    Some(Command::Help),
    Some(Command::AddCheck),
    Some(Command::Cancel),
    Some(Command::Remain),
];

#[test]
fn commands_when_idle() {
    let s = State::Start;
    assert_eq!(route(&s, Some(Command::Help)), Handler::Help);
    assert_eq!(route(&s, Some(Command::AddCheck)), Handler::Start);
    assert_eq!(route(&s, Some(Command::Remain)), Handler::Remain);
    assert_eq!(route(&s, Some(Command::Cancel)), Handler::Cancel);
    assert_eq!(route(&s, None), Handler::InvalidState);
}

#[test]
fn cancel_is_heard_in_every_state() {
    for s in [
        State::Start,
        State::ReceiveCategory,
        State::ReceiveCheckWithItems { category: Category::Rent },
    ] {
        assert_eq!(route(&s, Some(Command::Cancel)), Handler::Cancel);
    }
}

#[test]
fn dialogue_takes_every_other_message_as_its_answer() {
    for cmd in COMMANDS {
        if cmd == Some(Command::Cancel) {
            continue;
        }
        assert_eq!(route(&State::ReceiveCategory, cmd), Handler::ReceiveCategory);
        assert_eq!(
            route(&State::ReceiveCheckWithItems { category: Category::FoodAndDrinks }, cmd),
            Handler::ReceiveCheck { category: Category::FoodAndDrinks }
        );
    }
}

#[test]
fn default_state_is_start() {
    assert_eq!(State::default(), State::Start);
}

#[test]
fn category_reply() {
    assert_eq!(
        after_category_reply("Аренда"),
        State::ReceiveCheckWithItems { category: Category::Rent }
    );
    assert_eq!(after_category_reply("something else"), State::ReceiveCategory);
    for b in category_buttons() {
        assert!(matches!(after_category_reply(&b), State::ReceiveCheckWithItems { .. }));
    }
}

#[test]
fn buttons_in_keyboard_order() {
    assert_eq!(
        category_buttons(),
        vec![
            "Поживні речовини".to_string(),
            "Операційні витрати".to_string(),
            "Аренда".to_string(),
            "Українські зобовʼязання".to_string(),
        ]
    );
}

#[test]
fn log_hands_back_remembered_ids_in_slot_order() {
    let mut log = MessageLog::new();
    assert!(log.clear().is_empty());
    log.remember(Slot::CategoryPrompt, 11);
    log.remember(Slot::AddCheckCommand, 10);
    log.remember(Slot::CheckConfirmation, 15);
    log.remember(Slot::CategoryPrompt, 12);
    assert_eq!(log.clear(), vec![10, 12, 15]);
    assert!(log.clear().is_empty());
}

#[test]
fn balance_report_skips_unreadable_balances() {
    let report = budget_bot::dialogue::balance_report(&[
        Some((Category::FoodAndDrinks, "12.5".to_string())),
        None,
        Some((Category::Rent, "-3".to_string())),
    ]);
    assert_eq!(
        report,
        "По категорії 'Поживні речовини' залишилося 12.5 євро.\nПо категорії 'Аренда' залишилося -3 євро."
    );
    assert_eq!(budget_bot::dialogue::balance_report(&[None]), "");
}

#[test]
fn booking_dialogue_goes_round() {
    let s = next_state(&State::Start, Some(Command::AddCheck), Some("/addcheck"));
    assert_eq!(s, State::ReceiveCategory);
    let s = next_state(&s, None, Some("Українські зобовʼязання"));
    assert_eq!(s, State::ReceiveCheckWithItems { category: Category::UkrReponsibilities });
    let s = next_state(&s, None, Some("Milk 2.50\nBread 1"));
    assert_eq!(s, State::Start);
}

#[test]
fn dialogue_stays_on_unusable_answers() {
    assert_eq!(next_state(&State::ReceiveCategory, None, Some("Rent")), State::ReceiveCategory);
    assert_eq!(next_state(&State::ReceiveCategory, None, None), State::ReceiveCategory);
    let waiting = State::ReceiveCheckWithItems { category: Category::Rent };
    assert_eq!(next_state(&waiting, None, Some("Milk two")), waiting);
    assert_eq!(next_state(&waiting, None, None), waiting);
    assert_eq!(next_state(&waiting, Some(Command::Help), Some("/help")), waiting);
}

#[test]
fn cancel_and_idle_commands() {
    for s in [
        State::Start,
        State::ReceiveCategory,
        State::ReceiveCheckWithItems { category: Category::Rent },
    ] {
        assert_eq!(next_state(&s, Some(Command::Cancel), Some("/cancel")), State::Start);
    }
    assert_eq!(next_state(&State::Start, Some(Command::Help), Some("/help")), State::Start);
    assert_eq!(next_state(&State::Start, Some(Command::Remain), Some("/remain")), State::Start);
    assert_eq!(next_state(&State::Start, None, Some("hello")), State::Start);
}
