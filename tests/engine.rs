use firmware_setup::codec::serialize;
use firmware_setup::engine::{Decision, Engine, Event};
use firmware_setup::form::{
    Form, HotKey, ListHead, OpCode, QuestionOption, Statement, UserInput, BROWSER_ACTION_FORM_EXIT,
    BROWSER_ACTION_NONE, FRONT_PAGE_FORM_ID,
};
use firmware_setup::key::TextInputKey;
use firmware_setup::value::Value;
use firmware_setup::walker::flatten;

const DOWN: TextInputKey = TextInputKey { scan_code: 2, unicode_char: 0 };
const UP: TextInputKey = TextInputKey { scan_code: 1, unicode_char: 0 };
const ENTER: TextInputKey = TextInputKey { scan_code: 0, unicode_char: 13 };
const ESCAPE: TextInputKey = TextInputKey { scan_code: 23, unicode_char: 0 };
const PAGE_UP: TextInputKey = TextInputKey { scan_code: 9, unicode_char: 0 };
const PAGE_DOWN: TextInputKey = TextInputKey { scan_code: 10, unicode_char: 0 };
const F10: TextInputKey = TextInputKey { scan_code: 20, unicode_char: 0 };

fn option(value: Value, prompt: &str) -> QuestionOption {
    QuestionOption { value: Some(value), prompt: Some(prompt.to_string()) }
}

fn statement(op: OpCode, prompt: &str, value: Value, options: Vec<QuestionOption>) -> Statement {
    Statement {
        op_code: Some(op),
        prompt: Some(prompt.to_string()),
        help: Some(format!("help for {}", prompt)),
        current_value: value,
        buffer: None,
        options: ListHead::new(options),
    }
}

fn form(id: u16, statements: Vec<Statement>, highlighted: Option<usize>) -> Form {
    Form {
        form_id: id,
        title: Some("Setup".to_string()),
        statements: ListHead::new(statements),
        highlighted,
        hot_keys: ListHead::new(vec![HotKey {
            key_data: F10,
            action: 0x40,
            default_id: 3,
            help: "F10=Save".to_string(),
        }]),
        refresh_event: false,
        screen_dimensions: None,
    }
}

fn one_of() -> Statement {
    statement(
        OpCode::OneOf,
        "Mode",
        Value::U8(1),
        vec![option(Value::U8(0), "Off"), option(Value::U8(1), "On"), option(Value::U8(2), "Auto")],
    )
}

fn sample_form() -> Form {
    form(
        0x1000,
        vec![
            statement(OpCode::Subtitle, "General", Value::Other(8, 0, 0), vec![]),
            statement(OpCode::Action, "Save", Value::Other(7, 5, 0), vec![]),
            statement(OpCode::Checkbox, "Wake on LAN", Value::Bool(false), vec![]),
            statement(OpCode::Other(0x5b), "Hidden", Value::U8(0), vec![]),
            one_of(),
            statement(OpCode::Subtitle, "Footer", Value::Other(8, 0, 0), vec![]),
        ],
        None,
    )
}

fn press(engine: &mut Engine, f: &Form, k: TextInputKey) -> Option<Decision> {
    engine.handle(f, Event::Key(k), 10)
}

fn list_form() -> Form {
    statement_with_buffer(vec![0xa, 0xb, 0xc, 0])
}

fn select_parts(d: Option<Decision>) -> (usize, Value, Option<Vec<u8>>) {
    match d {
        Some(Decision::Select { statement, value, buffer }) => (statement, value, buffer),
        _ => panic!("expected a selection"),
    }
}

#[test]
fn flatten_keeps_supported_statements_in_order() {
    let f = sample_form();
    let (elements, selected) = flatten(&f);
    let statements: Vec<usize> = elements.iter().map(|e| e.statement).collect();
    assert_eq!(statements, vec![0, 1, 2, 4, 5]);
    assert_eq!(elements[0].prompt, "General");
    assert!(!elements[0].selectable);
    assert!(elements[1].selectable && !elements[1].editable);
    assert!(elements[2].checkbox && elements[2].editable);
    assert_eq!(elements[3].options.len(), 3);
    assert_eq!(selected, Some(1));
}

#[test]
fn flatten_skips_unreadable_statements_and_options() {
    let mut st = one_of();
    st.prompt = None;
    st.help = None;
    st.options = ListHead::new(vec![
        option(Value::U8(0), "Off"),
        QuestionOption { value: None, prompt: Some("broken".to_string()) },
        QuestionOption { value: Some(Value::U8(2)), prompt: None },
    ]);
    let mut missing = one_of();
    missing.op_code = None;
    let f = form(0x1000, vec![missing, st], None);
    let (elements, selected) = flatten(&f);
    assert_eq!(elements.len(), 1);
    assert_eq!(elements[0].statement, 1);
    assert_eq!(elements[0].prompt, "");
    assert_eq!(elements[0].help, "");
    let prompts: Vec<&str> = elements[0].options.iter().map(|o| o.prompt.as_str()).collect();
    assert_eq!(prompts, vec!["Off", ""]);
    assert_eq!(selected, Some(0));
}

#[test]
fn initial_selection_follows_highlight() {
    let mut f = sample_form();
    f.highlighted = Some(4);
    let (_, selected) = flatten(&f);
    assert_eq!(selected, Some(3));
}

#[test]
fn initial_selection_ignores_unselectable_highlight() {
    let mut f = sample_form();
    f.highlighted = Some(5);
    let (_, selected) = flatten(&f);
    assert_eq!(selected, Some(1));
}

#[test]
fn initial_selection_is_none_without_selectable_elements() {
    let f = form(
        0x1000,
        vec![statement(OpCode::Subtitle, "Only text", Value::Other(8, 0, 0), vec![])],
        None,
    );
    let (elements, selected) = flatten(&f);
    assert_eq!(elements.len(), 1);
    assert_eq!(selected, None);
    let mut engine = Engine::new(&f);
    assert_eq!(press(&mut engine, &f, DOWN).is_none(), true);
    assert_eq!(engine.selected(), None);
    assert!(press(&mut engine, &f, ENTER).is_none());
}

#[test]
fn down_wraps_to_first_selectable() {
    let f = sample_form();
    let mut engine = Engine::new(&f);
    assert_eq!(engine.selected(), Some(1));
    press(&mut engine, &f, DOWN);
    assert_eq!(engine.selected(), Some(2));
    press(&mut engine, &f, DOWN);
    assert_eq!(engine.selected(), Some(3));
    press(&mut engine, &f, DOWN);
    assert_eq!(engine.selected(), Some(1));
}

#[test]
fn up_wraps_to_last_selectable() {
    let f = sample_form();
    let mut engine = Engine::new(&f);
    press(&mut engine, &f, UP);
    assert_eq!(engine.selected(), Some(3));
    press(&mut engine, &f, UP);
    assert_eq!(engine.selected(), Some(2));
}

#[test]
fn scrolling_keeps_selection_visible() {
    let statements: Vec<Statement> =
        (0..6).map(|i| statement(OpCode::Action, &format!("Item {}", i), Value::Other(8, 0, 0), vec![])).collect();
    let f = form(0x1000, statements, None);
    let mut engine = Engine::new(&f);
    for _ in 0..3 {
        engine.handle(&f, Event::Key(DOWN), 2);
    }
    assert_eq!(engine.selected(), Some(3));
    assert_eq!(engine.element_start(), 2);
    engine.handle(&f, Event::Key(UP), 2);
    assert_eq!(engine.element_start(), 2);
    engine.handle(&f, Event::Key(UP), 2);
    assert_eq!(engine.selected(), Some(1));
    assert_eq!(engine.element_start(), 1);
    engine.handle(&f, Event::Key(UP), 2);
    engine.handle(&f, Event::Key(UP), 2);
    assert_eq!(engine.selected(), Some(5));
    assert_eq!(engine.element_start(), 4);
}

#[test]
fn checkbox_toggles_on_enter() {
    let f = sample_form();
    let mut engine = Engine::new(&f);
    press(&mut engine, &f, DOWN);
    let (statement, value, buffer) = select_parts(press(&mut engine, &f, ENTER));
    assert_eq!(statement, 2);
    assert_eq!(value, Value::Bool(true));
    assert_eq!(buffer, None);
    assert!(!engine.editing());
}

#[test]
fn action_is_selected_without_editing() {
    let f = sample_form();
    let mut engine = Engine::new(&f);
    let (statement, value, _) = select_parts(press(&mut engine, &f, ENTER));
    assert_eq!(statement, 1);
    assert_eq!(value, Value::Other(7, 5, 0));
}

#[test]
fn edit_commit_returns_last_value_shown() {
    let f = sample_form();
    let mut engine = Engine::new(&f);
    press(&mut engine, &f, UP);
    assert!(press(&mut engine, &f, ENTER).is_none());
    assert!(engine.editing());
    press(&mut engine, &f, DOWN);
    press(&mut engine, &f, DOWN);
    assert_eq!(engine.elements()[3].value, Value::U8(0));
    press(&mut engine, &f, UP);
    assert_eq!(engine.elements()[3].value, Value::U8(2));
    let (statement, value, buffer) = select_parts(press(&mut engine, &f, ENTER));
    assert_eq!(statement, 4);
    assert_eq!(value, Value::U8(2));
    assert_eq!(buffer, None);
}

#[test]
fn escape_discards_edit_and_keeps_selection() {
    let f = sample_form();
    let mut engine = Engine::new(&f);
    press(&mut engine, &f, UP);
    press(&mut engine, &f, ENTER);
    press(&mut engine, &f, DOWN);
    assert_eq!(engine.elements()[3].value, Value::U8(2));
    assert!(press(&mut engine, &f, ESCAPE).is_none());
    assert!(!engine.editing());
    assert_eq!(engine.selected(), Some(3));
    assert_eq!(engine.elements()[3].value, Value::U8(1));
    assert_eq!(f.statements.get(4).current_value, Value::U8(1));
}

#[test]
fn escape_leaves_ordinary_form() {
    let f = sample_form();
    let mut engine = Engine::new(&f);
    assert!(matches!(press(&mut engine, &f, ESCAPE), Some(Decision::Exit)));
}

#[test]
fn escape_on_front_page_does_nothing() {
    let mut f = sample_form();
    f.form_id = FRONT_PAGE_FORM_ID;
    let mut engine = Engine::new(&f);
    assert!(press(&mut engine, &f, ESCAPE).is_none());
    assert_eq!(engine.selected(), Some(1));
    assert!(!engine.editing());
}

#[test]
fn hot_key_ends_invocation_while_browsing() {
    let f = sample_form();
    let mut engine = Engine::new(&f);
    match press(&mut engine, &f, F10) {
        Some(Decision::HotKey { action, default_id }) => {
            assert_eq!(action, 0x40);
            assert_eq!(default_id, 3);
        }
        _ => panic!("expected the hot key"),
    }
}

#[test]
fn hot_key_is_ignored_while_editing() {
    let f = sample_form();
    let mut engine = Engine::new(&f);
    press(&mut engine, &f, UP);
    press(&mut engine, &f, ENTER);
    assert!(press(&mut engine, &f, F10).is_none());
    assert!(engine.editing());
}

#[test]
fn driver_event_asks_for_refresh() {
    let f = sample_form();
    let mut engine = Engine::new(&f);
    assert!(matches!(engine.handle(&f, Event::Driver, 10), Some(Decision::Refresh)));
}

#[test]
fn ordered_list_reorder_round_trip() {
    let f = list_form();
    let mut engine = Engine::new(&f);
    press(&mut engine, &f, ENTER);
    assert!(engine.editing());
    press(&mut engine, &f, DOWN);
    press(&mut engine, &f, DOWN);
    assert_eq!(engine.elements()[0].list_i, 2);
    press(&mut engine, &f, PAGE_UP);
    press(&mut engine, &f, PAGE_UP);
    let order: Vec<Value> = engine.elements()[0].options.iter().map(|o| o.value).collect();
    assert_eq!(order, vec![Value::U8(0xc), Value::U8(0xa), Value::U8(0xb)]);
    let (statement, _, buffer) = select_parts(press(&mut engine, &f, ENTER));
    assert_eq!(statement, 0);
    let buffer = buffer.expect("a list buffer");
    assert_eq!(buffer, vec![0xc, 0xa, 0xb, 0]);

    let again = statement_with_buffer(buffer);
    let (elements, _) = flatten(&again);
    let order: Vec<Value> = elements[0].options.iter().map(|o| o.value).collect();
    assert_eq!(order, vec![Value::U8(0xc), Value::U8(0xa), Value::U8(0xb)]);
}

fn statement_with_buffer(buffer: Vec<u8>) -> Form {
    let mut st = statement(
        OpCode::OrderedList,
        "Boot order",
        Value::Other(8, 0, 0),
        vec![option(Value::U8(0xa), "A"), option(Value::U8(0xb), "B"), option(Value::U8(0xc), "C")],
    );
    st.buffer = Some(buffer);
    form(0x1000, vec![st], None)
}

#[test]
fn page_down_moves_option_down() {
    let f = list_form();
    let mut engine = Engine::new(&f);
    press(&mut engine, &f, ENTER);
    press(&mut engine, &f, PAGE_DOWN);
    let order: Vec<Value> = engine.elements()[0].options.iter().map(|o| o.value).collect();
    assert_eq!(order, vec![Value::U8(0xb), Value::U8(0xa), Value::U8(0xc)]);
    assert_eq!(engine.elements()[0].list_i, 1);
    press(&mut engine, &f, ESCAPE);
    let order: Vec<Value> = engine.elements()[0].options.iter().map(|o| o.value).collect();
    assert_eq!(order, vec![Value::U8(0xa), Value::U8(0xb), Value::U8(0xc)]);
    assert_eq!(engine.elements()[0].list_i, 0);
}

#[test]
fn flatten_orders_list_by_buffer() {
    let f = statement_with_buffer(vec![0xb, 0xc, 0xa, 0, 0]);
    let (elements, _) = flatten(&f);
    let order: Vec<Value> = elements[0].options.iter().map(|o| o.value).collect();
    assert_eq!(order, vec![Value::U8(0xb), Value::U8(0xc), Value::U8(0xa)]);
    assert_eq!(elements[0].buffer_len, Some(5));
    assert_eq!(serialize(&elements[0].options, 5), vec![0xb, 0xc, 0xa, 0, 0]);
}

#[test]
fn user_input_records_decisions() {
    let mut input = UserInput {
        selected_statement: None,
        input_value: Value::U8(0),
        buffer: None,
        action: 0,
        default_id: 9,
    };
    input.record(Decision::Refresh);
    assert_eq!(input.action, BROWSER_ACTION_NONE);
    input.record(Decision::Exit);
    assert_eq!(input.action, BROWSER_ACTION_FORM_EXIT);
    assert_eq!(input.default_id, 9);
    input.record(Decision::HotKey { action: 5, default_id: 1 });
    assert_eq!((input.action, input.default_id), (5, 1));
    input.record(Decision::Select { statement: 4, value: Value::U16(3), buffer: Some(vec![1, 2]) });
    assert_eq!(input.selected_statement, Some(4));
    assert_eq!(input.input_value, Value::U16(3));
    assert_eq!(input.buffer, Some(vec![1, 2]));
    assert_eq!(input.action, 5);
}

#[test]
fn empty_form_has_nothing_to_select() {
    let f = form(0x1000, vec![], None);
    let (elements, selected) = flatten(&f);
    assert!(elements.is_empty());
    assert_eq!(selected, None);
    let mut engine = Engine::new(&f);
    assert!(press(&mut engine, &f, ENTER).is_none());
    assert!(press(&mut engine, &f, UP).is_none());
    assert!(matches!(press(&mut engine, &f, ESCAPE), Some(Decision::Exit)));
}
