use vstd::prelude::*;

use crate::category::{category_name, lemma_name_round_trip, parse_category, Category};
use crate::check::{receipt_is_readable, Check};
use crate::text::{join, joined, views};

verus! {

/// Where a chat stands in the dialogue that books a receipt.
#[derive(Clone, Copy, Debug, PartialEq, Eq, Structural)]
pub enum State {
    /// No dialogue is under way.
    Start,
    /// The bot has asked which category the receipt belongs to.
    ReceiveCategory,
    /// The bot waits for the receipt of the chosen category.
    ReceiveCheckWithItems { category: Category },
}

impl Default for State {
    fn default() -> (r: State)
        ensures
            r == State::Start,
    {
        State::Start
    }
}

/// The commands that the bot understands.
#[derive(Clone, Copy, Debug, PartialEq, Eq, Structural)]
pub enum Command {
    Help,
    AddCheck,
    Cancel,
    Remain,
}

/// The piece of the bot that answers a message.
#[derive(Clone, Copy, Debug, PartialEq, Eq, Structural)]
pub enum Handler {
    /// Lists the commands.
    Help,
    /// Starts booking a receipt by asking for its category.
    Start,
    /// Reports how much money is left in each category.
    Remain,
    /// Abandons the dialogue.
    Cancel,
    /// Takes the chosen category.
    ReceiveCategory,
    /// Takes the receipt for the chosen category.
    ReceiveCheck { category: Category },
    /// Tells the user that the message cannot be handled now.
    InvalidState,
}

/// Which handler answers a message, given the chat's state and the command
/// that the message holds, if any. `/cancel` is heard in every state; the
/// other commands only when no dialogue is under way. Otherwise the state
/// decides: a dialogue under way takes the message as its next answer, and
/// with none under way the message cannot be handled.
pub open spec fn route_of(state: State, command: Option<Command>) -> Handler {
    match command {
        Some(Command::Cancel) => Handler::Cancel,
        Some(Command::Help) if state == State::Start => Handler::Help,
        Some(Command::AddCheck) if state == State::Start => Handler::Start,
        Some(Command::Remain) if state == State::Start => Handler::Remain,
        _ => match state {
            State::Start => Handler::InvalidState,
            State::ReceiveCategory => Handler::ReceiveCategory,
            State::ReceiveCheckWithItems { category } => Handler::ReceiveCheck { category },
        },
    }
}

/// While a receipt is awaited for a category, every message but `/cancel`
/// goes to the receipt handler with that same category, whatever the
/// category; while a category is awaited, every such message goes to the
/// category handler.
pub proof fn lemma_dialogue_keeps_its_category(c: Category, command: Option<Command>)
    requires
        command != Some(Command::Cancel),
    ensures
        route_of(State::ReceiveCheckWithItems { category: c }, command) == (Handler::ReceiveCheck {
            category: c,
        }),
        route_of(State::ReceiveCategory, command) == Handler::ReceiveCategory,
{
}

/// Chooses the handler for a message.
pub fn route(state: &State, command: Option<Command>) -> (h: Handler)
    ensures
        h == route_of(*state, command),
        command == Some(Command::Cancel) ==> h == Handler::Cancel,
        *state != State::Start && command != Some(Command::Cancel) ==> (h
            == Handler::ReceiveCategory || h is ReceiveCheck),
        forall|c: Category|
            *state == (State::ReceiveCheckWithItems { category: c }) && command != Some(
                Command::Cancel,
            ) ==> h == (Handler::ReceiveCheck { category: c }),
{
    match command {
        Some(Command::Cancel) => Handler::Cancel,
        Some(cmd) => match state {
            State::Start => match cmd {
                Command::Help => Handler::Help,
                Command::AddCheck => Handler::Start,
                Command::Remain => Handler::Remain,
                Command::Cancel => Handler::Cancel,
            },
            _ => route_answer(state),
        },
        None => route_answer(state),
    }
}

/// The handler for a message that is not a command the state listens to.
fn route_answer(state: &State) -> (h: Handler)
    ensures
        h == route_of(*state, None),
{
    match state {
        State::Start => Handler::InvalidState,
        State::ReceiveCategory => Handler::ReceiveCategory,
        State::ReceiveCheckWithItems { category } => Handler::ReceiveCheck { category: *category },
    }
}

/// The state that follows the user's answer to the category question: the
/// chosen category when the answer names one, otherwise the question stands.
pub open spec fn state_after_category_reply(reply: Seq<char>) -> State {
    match parse_category(reply) {
        Some(category) => State::ReceiveCheckWithItems { category },
        None => State::ReceiveCategory,
    }
}

/// Takes the user's answer to the category question.
pub fn after_category_reply(reply: &str) -> (s: State)
    ensures
        s == state_after_category_reply(reply@),
{
    match Category::from_str(reply) {
        Ok(category) => State::ReceiveCheckWithItems { category },
        Err(_) => State::ReceiveCategory,
    }
}

/// Answering the category question with a category's name moves the
/// dialogue on to that category's receipt; so does every keyboard button.
pub proof fn lemma_choosing_a_category(c: Category)
    ensures
        state_after_category_reply(category_name(c)) == (State::ReceiveCheckWithItems {
            category: c,
        }),
        forall|i: int|
            0 <= i < category_choices().len() ==> (#[trigger] state_after_category_reply(
                category_choices()[i],
            )) is ReceiveCheckWithItems,
{
    lemma_name_round_trip(c);
    lemma_name_round_trip(Category::FoodAndDrinks);
    lemma_name_round_trip(Category::OperationalSpends);
    lemma_name_round_trip(Category::Rent);
    lemma_name_round_trip(Category::UkrReponsibilities);
}

/// The text of a message, if it has any.
pub open spec fn text_of(text: Option<&str>) -> Option<Seq<char>> {
    match text {
        Some(t) => Some(t@),
        None => None,
    }
}

/// The state a chat is in once the handler that `route_of` chooses has
/// answered a message with the given command and text. `/addcheck` asks
/// for a category; a category answer moves on as
/// `state_after_category_reply` says; a readable receipt is booked and ends
/// the dialogue, as does `/cancel`. Everything else leaves the state as it
/// was, among it a message without text, and a receipt with a line that
/// yields no entry (reading it is abandoned before the dialogue moves).
pub open spec fn next_state_of(state: State, command: Option<Command>, text: Option<Seq<char>>) -> State {
    match route_of(state, command) {
        Handler::Start => State::ReceiveCategory,
        Handler::Cancel => State::Start,
        Handler::ReceiveCategory => match text {
            Some(t) => state_after_category_reply(t),
            None => state,
        },
        Handler::ReceiveCheck { .. } => match text {
            Some(t) => if receipt_is_readable(t) {
                State::Start
            } else {
                state
            },
            None => state,
        },
        _ => state,
    }
}

/// Decides the state that follows a message.
pub fn next_state(state: &State, command: Option<Command>, text: Option<&str>) -> (s: State)
    ensures
        s == next_state_of(*state, command, text_of(text)),
{
    match route(state, command) {
        Handler::Start => State::ReceiveCategory,
        Handler::Cancel => State::Start,
        Handler::ReceiveCategory => match text {
            Some(t) => after_category_reply(t),
            None => *state,
        },
        Handler::ReceiveCheck { .. } => match text {
            Some(t) => if Check::parse(t).is_some() {
                State::Start
            } else {
                *state
            },
            None => *state,
        },
        _ => *state,
    }
}

/// The booking dialogue: from no dialogue, `/addcheck` asks for a
/// category, naming a category asks for its receipt, and a readable
/// receipt ends the dialogue; `/cancel` ends it from any state, and the
/// other commands leave an idle chat idle.
pub proof fn lemma_booking_dialogue(
    c: Category,
    receipt: Seq<char>,
    state: State,
    text: Option<Seq<char>>,
)
    requires
        receipt_is_readable(receipt),
    ensures
        next_state_of(State::Start, Some(Command::AddCheck), text) == State::ReceiveCategory,
        next_state_of(State::ReceiveCategory, None, Some(category_name(c))) == (
        State::ReceiveCheckWithItems { category: c }),
        next_state_of(State::ReceiveCheckWithItems { category: c }, None, Some(receipt))
            == State::Start,
        next_state_of(state, Some(Command::Cancel), text) == State::Start,
        next_state_of(State::Start, Some(Command::Help), text) == State::Start,
        next_state_of(State::Start, Some(Command::Remain), text) == State::Start,
        next_state_of(State::Start, None, text) == State::Start,
{
    lemma_choosing_a_category(c);
}

/// The messages of a dialogue that the bot keeps track of, so that it can
/// delete them once the dialogue is over.
#[derive(Clone, Copy, Debug, PartialEq, Eq, Structural)]
pub enum Slot {
    /// The user's `/addcheck`.
    AddCheckCommand,
    /// The bot's question for the category.
    CategoryPrompt,
    /// The user's chosen category.
    CategoryReply,
    /// The bot's request for the receipt.
    CheckPrompt,
    /// The user's receipt.
    CheckReply,
    /// The bot's confirmation that the receipt was booked.
    CheckConfirmation,
}

/// The number of places in a message log.
pub const LOG_SIZE: usize = 10;

/// Where a slot's message is kept in the log.
pub open spec fn slot_index(slot: Slot) -> int {
    match slot {
        Slot::AddCheckCommand => 0,
        Slot::CategoryPrompt => 1,
        Slot::CategoryReply => 2,
        Slot::CheckPrompt => 3,
        Slot::CheckReply => 4,
        Slot::CheckConfirmation => 5,
    }
}

/// The message ids held in `log`, in the order of their places.
pub open spec fn recorded(log: Seq<Option<i32>>) -> Seq<i32>
    decreases log.len(),
{
    if log.len() == 0 {
        Seq::empty()
    } else {
        let prev = recorded(log.drop_last());
        match log.last() {
            Some(id) => prev.push(id),
            None => prev,
        }
    }
}

/// A message id held at any place of a log is among the ids that
/// clearing the log hands back for deletion.
pub proof fn lemma_held_id_is_recorded(log: Seq<Option<i32>>, k: int, id: i32)
    requires
        0 <= k < log.len(),
        log[k] == Some(id),
    ensures
        recorded(log).contains(id),
    decreases log.len(),
{
    if k < log.len() - 1 {
        lemma_held_id_is_recorded(log.drop_last(), k, id);
        let prev = recorded(log.drop_last());
        let j = choose|j: int| 0 <= j < prev.len() && prev[j] == id;
        if log.last() is Some {
            assert(recorded(log)[j] == id);
        }
    } else {
        assert(recorded(log).last() == id);
    }
}

/// A message remembered for a slot is deleted when the dialogue's log is
/// cleared.
pub proof fn lemma_remembered_is_deleted(log: Seq<Option<i32>>, slot: Slot, id: i32)
    requires
        log.len() == LOG_SIZE,
    ensures
        recorded(log.update(slot_index(slot), Some(id))).contains(id),
{
    lemma_held_id_is_recorded(log.update(slot_index(slot), Some(id)), slot_index(slot), id);
}

/// Each slot has its own place in the log, within the log's size.
pub proof fn lemma_slots_have_own_places(a: Slot, b: Slot)
    ensures
        0 <= slot_index(a) < LOG_SIZE,
        a != b ==> slot_index(a) != slot_index(b),
{
}

/// Remembering a message for one slot keeps the message remembered for
/// another slot: clearing the log afterwards hands back both.
pub proof fn lemma_slots_keep_their_messages(
    log: Seq<Option<i32>>,
    a: Slot,
    x: i32,
    b: Slot,
    y: i32,
)
    requires
        log.len() == LOG_SIZE,
        a != b,
    ensures
        log.update(slot_index(a), Some(x)).update(slot_index(b), Some(y))[slot_index(a)] == Some(x),
        recorded(log.update(slot_index(a), Some(x)).update(slot_index(b), Some(y))).contains(x),
        recorded(log.update(slot_index(a), Some(x)).update(slot_index(b), Some(y))).contains(y),
{
    lemma_slots_have_own_places(a, b);
    let l = log.update(slot_index(a), Some(x)).update(slot_index(b), Some(y));
    lemma_held_id_is_recorded(l, slot_index(a), x);
    lemma_held_id_is_recorded(l, slot_index(b), y);
}

/// A clear log holds nothing to delete, so clearing it twice deletes
/// nothing the second time.
pub proof fn lemma_clear_log_records_nothing(log: Seq<Option<i32>>)
    requires
        is_clear(log),
    ensures
        recorded(log).len() == 0,
    decreases log.len(),
{
    if log.len() > 0 {
        lemma_clear_log_records_nothing(log.drop_last());
    }
}

/// A log with no message in it.
pub open spec fn is_clear(log: Seq<Option<i32>>) -> bool {
    forall|i: int| 0 <= i < log.len() ==> log[i] is None
}

/// Ids of the messages that belong to the dialogue under way, one place
/// per slot.
pub struct MessageLog {
    ids: [Option<i32>; 10],
}

impl View for MessageLog {
    type V = Seq<Option<i32>>;

    closed spec fn view(&self) -> Seq<Option<i32>> {
        self.ids@
    }
}

impl MessageLog {
    /// An empty log.
    pub fn new() -> (r: MessageLog)
        ensures
            r@.len() == LOG_SIZE,
            is_clear(r@),
    {
        MessageLog { ids: [None, None, None, None, None, None, None, None, None, None] }
    }

    /// The number of places in the log.
    pub proof fn lemma_len(&self)
        ensures
            self@.len() == LOG_SIZE,
    {
    }

    /// Records the id of the message for `slot`, replacing what was there.
    pub fn remember(&mut self, slot: Slot, id: i32)
        ensures
            final(self)@ == old(self)@.update(slot_index(slot), Some(id)),
    {
        let i: usize = match slot {
            Slot::AddCheckCommand => 0,
            Slot::CategoryPrompt => 1,
            Slot::CategoryReply => 2,
            Slot::CheckPrompt => 3,
            Slot::CheckReply => 4,
            Slot::CheckConfirmation => 5,
        };
        self.ids[i] = Some(id);
    }

    /// Empties the log and hands back the ids it held, in the order of
    /// their places, for the caller to delete.
    pub fn clear(&mut self) -> (ids: Vec<i32>)
        ensures
            final(self)@.len() == LOG_SIZE,
            is_clear(final(self)@),
            ids@ == recorded(old(self)@),
    {
        let mut ids: Vec<i32> = Vec::new();
        let mut i: usize = 0;
        while i < LOG_SIZE
            invariant
                i <= LOG_SIZE,
                self@.len() == LOG_SIZE,
                old(self)@.len() == LOG_SIZE,
                forall|j: int| 0 <= j < i ==> self@[j] is None,
                forall|j: int| i <= j < LOG_SIZE ==> self@[j] == old(self)@[j],
                ids@ == recorded(old(self)@.take(i as int)),
            decreases LOG_SIZE - i,
        {
            assert(old(self)@.take(i + 1).drop_last() =~= old(self)@.take(i as int));
            match self.ids[i] {
                Some(id) => {
                    ids.push(id);
                },
                None => {},
            }
            self.ids[i] = None;
            i = i + 1;
        }
        assert(old(self)@.take(LOG_SIZE as int) =~= old(self)@);
        ids
    }
}

/// The answers offered when the bot asks for a category, in the order of
/// the keyboard.
pub open spec fn category_choices() -> Seq<Seq<char>> {
    seq![
        category_name(Category::FoodAndDrinks),
        category_name(Category::OperationalSpends),
        category_name(Category::Rent),
        category_name(Category::UkrReponsibilities),
    ]
}

/// The keyboard buttons offered when the bot asks for a category.
pub fn category_buttons() -> (r: Vec<String>)
    ensures
        r@.map_values(|b: String| b@) == category_choices(),
{
    let mut r: Vec<String> = Vec::new();
    r.push(Category::FoodAndDrinks.to_string());
    r.push(Category::OperationalSpends.to_string());
    r.push(Category::Rent.to_string());
    r.push(Category::UkrReponsibilities.to_string());
    assert(r@.map_values(|b: String| b@) =~= category_choices());
    r
}

/// The report line for one category's balance, given the text that the
/// amount is shown as.
pub open spec fn balance_line(c: Category, amount_shown: Seq<char>) -> Seq<char> {
    "По категорії '"@ + category_name(c) + "' залишилося "@ + amount_shown + " євро."@
}

/// The lines of a balance report: one per category whose balance could be
/// read, in the order given; the others are left out.
pub open spec fn balance_lines(balances: Seq<Option<(Category, String)>>) -> Seq<Seq<char>>
    decreases balances.len(),
{
    if balances.len() == 0 {
        Seq::empty()
    } else {
        let prev = balance_lines(balances.drop_last());
        match balances.last() {
            Some((c, shown)) => prev.push(balance_line(c, shown@)),
            None => prev,
        }
    }
}

/// The report lines: none for a balance that could not be read, exactly
/// the line `По категорії '<name>' залишилося <amount> євро.` for one that
/// could, and those of consecutive balances one after the other.
pub proof fn lemma_balance_lines(
    a: Seq<Option<(Category, String)>>,
    b: Seq<Option<(Category, String)>>,
    c: Category,
    shown: String,
)
    ensures
        balance_lines(seq![None]).len() == 0,
        balance_lines(seq![Some((c, shown))]) == seq![
            "По категорії '"@ + category_name(c) + "' залишилося "@ + shown@ + " євро."@,
        ],
        balance_lines(a + b) == balance_lines(a) + balance_lines(b),
    decreases b.len(),
{
    assert(seq![None::<(Category, String)>].drop_last() =~= Seq::empty());
    assert(seq![Some((c, shown))].drop_last() =~= Seq::empty());
    assert(seq![Some((c, shown))].last() == Some((c, shown)));
    assert(balance_lines(Seq::<Option<(Category, String)>>::empty()) =~= Seq::empty());
    assert(balance_lines(seq![Some((c, shown))]) =~= seq![balance_line(c, shown@)]);
    if b.len() == 0 {
        assert(a + b =~= a);
        assert(balance_lines(a) + balance_lines(b) =~= balance_lines(a));
    } else {
        lemma_balance_lines(a, b.drop_last(), c, shown);
        assert((a + b).drop_last() =~= a + b.drop_last());
        assert((a + b).last() == b.last());
        match b.last() {
            Some((c2, s2)) => {
                assert(balance_lines(a + b) =~= balance_lines(a) + balance_lines(b));
            },
            None => {},
        }
    }
}

/// The report of how much money is left: the lines of the balances that
/// could be read, one per line.
pub fn balance_report(balances: &[Option<(Category, String)>]) -> (r: String)
    ensures
        r@ == joined(balance_lines(balances@), "\n"@),
{
    let mut lines: Vec<String> = Vec::new();
    let n = balances.len();
    for i in 0..n
        invariant
            n == balances@.len(),
            views(lines@) == balance_lines(balances@.take(i as int)),
    {
        assert(balances@.take(i + 1).drop_last() =~= balances@.take(i as int));
        match &balances[i] {
            Some((c, shown)) => {
                let line = String::from_str("По категорії '").concat(c.to_string().as_str()).concat(
                    "' залишилося ",
                ).concat(shown.as_str()).concat(" євро.");
                let ghost before = views(lines@);
                lines.push(line);
                assert(views(lines@) =~= before.push(line@));
            },
            None => {},
        }
    }
    assert(balances@.take(n as int) =~= balances@);
    join(lines.as_slice(), "\n")
}

} // verus!
