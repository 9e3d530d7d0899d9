use plugin_host::dispatch::{
    advertised, classify, help_reply, matching, nickname_of, Action, Dispatch, Event, Inbound,
    InboundCommand, Payload, Responder, Route,
};
use plugin_host::marshal::Invocation;
use plugin_host::plugins::Plugin;

fn strings(v: &[&str]) -> Vec<String> {
    v.iter().map(|s| s.to_string()).collect()
}

fn plugin(path: &str, triggers: &[&str], commands: &[&str]) -> Plugin {
    Plugin { name: path.to_string(), commands: strings(commands), triggers: strings(triggers) }
}

fn channel_message(text: &str) -> Inbound {
    Inbound {
        payload: Payload::Message,
        origin: Some("alice!user@host".to_string()),
        reply_target: Some("#chan".to_string()),
        text: text.to_string(),
    }
}

fn public(text: &str) -> Action {
    Action::Send { responder: Responder::Public("#chan".to_string()), text: text.to_string() }
}

fn private(text: &str) -> Action {
    Action::Send { responder: Responder::Private("alice".to_string()), text: text.to_string() }
}

fn invoke(path: &str, command: &str, parameter: &str) -> Action {
    Action::Invoke {
        path: path.to_string(),
        call: Invocation::encode(command, parameter, "alice!user@host").unwrap(),
    }
}

fn output(text: &str) -> Event {
    Event::Output(Some(text.as_bytes().to_vec()))
}

fn two_modules() -> Vec<Plugin> {
    vec![
        plugin("plugins/weather.so", &["^weather$"], &["weather"]),
        plugin("plugins/dice.so", &["^roll$", "^reroll$"], &["roll", "reroll"]),
    ]
}

#[test]
fn nickname_stands_before_the_first_bang() {
    assert_eq!(nickname_of("alice!user@host"), "alice");
    assert_eq!(nickname_of("alice"), "alice");
    assert_eq!(nickname_of("a!b!c"), "a");
    assert_eq!(nickname_of("!x"), "");
    assert_eq!(nickname_of(""), "");
}

#[test]
fn classify_reads_a_command() {
    assert_eq!(
        classify(&channel_message("+roll  2d6 ")),
        Some(InboundCommand {
            trigger_char: '+',
            command_name: "roll".to_string(),
            parameter: "2d6".to_string(),
            author_identity: "alice!user@host".to_string(),
            response_target: "#chan".to_string(),
        })
    );
}

#[test]
fn classify_wants_a_message_or_notice_with_sender_and_target() {
    let mut m = channel_message("+roll");
    m.payload = Payload::Notice;
    assert!(classify(&m).is_some());
    m.payload = Payload::Other;
    assert_eq!(classify(&m), None);
    let mut m = channel_message("+roll");
    m.origin = None;
    assert_eq!(classify(&m), None);
    let mut m = channel_message("+roll");
    m.reply_target = None;
    assert_eq!(classify(&m), None);
    assert_eq!(classify(&channel_message("roll")), None);
}

#[test]
fn responder_follows_the_sign() {
    let plus = classify(&channel_message("+x")).unwrap();
    assert_eq!(plus.responder(), Responder::Public("#chan".to_string()));
    let minus = classify(&channel_message("-x")).unwrap();
    assert_eq!(minus.responder(), Responder::Private("alice".to_string()));
}

#[test]
fn advertised_commands_come_in_registry_order() {
    assert_eq!(advertised(&two_modules()), strings(&["weather", "roll", "reroll"]));
    assert_eq!(advertised(&Vec::new()), Vec::<String>::new());
}

#[test]
fn help_reply_lists_the_commands() {
    assert_eq!(
        help_reply(&two_modules()),
        "\x0314[\x0304Commands\x0314] \x0314weather, roll, reroll"
    );
    assert_eq!(help_reply(&Vec::new()), "\x0314[\x0304Commands\x0314] \x0314");
}

#[test]
fn matching_modules_come_in_registry_order() {
    let registry = vec![
        plugin("a.so", &["^roll$"], &[]),
        plugin("b.so", &["^ping$"], &[]),
        plugin("c.so", &["(", "ro"], &[]),
        plugin("d.so", &[], &[]),
    ];
    assert_eq!(matching(&registry, "roll"), strings(&["a.so", "c.so"]));
    assert_eq!(matching(&registry, "ping"), strings(&["b.so"]));
    assert_eq!(matching(&registry, "help"), Vec::<String>::new());
}

#[test]
fn text_that_is_no_command_gets_no_reply() {
    for text in ["hello", "", "+", "+ help", "help", "+he_lp", "!help", "+say a\nb"] {
        let (d, action) = Dispatch::begin(&channel_message(text), &two_modules(), None);
        assert_eq!(action, Action::Done, "text {:?}", text);
        assert_eq!(d.route(), Route::Ignored);
        assert!(d.is_finished());
    }
}

#[test]
fn help_in_a_channel_lists_the_commands_of_all_modules() {
    let (mut d, action) = Dispatch::begin(&channel_message("+help"), &two_modules(), None);
    assert_eq!(d.route(), Route::BuiltinHandled);
    assert_eq!(action, public("\x0314[\x0304Commands\x0314] \x0314weather, roll, reroll"));
    assert_eq!(d.step(Event::Sent(true)), Action::Done);
    assert!(d.is_finished());
}

#[test]
fn help_answers_in_private_too() {
    let (mut d, action) = Dispatch::begin(&channel_message("-help"), &two_modules(), None);
    assert_eq!(action, private("\x0314[\x0304Commands\x0314] \x0314weather, roll, reroll"));
    assert_eq!(d.step(Event::Sent(true)), Action::Done);
}

#[test]
fn help_wins_over_a_module_that_claims_it() {
    let registry = vec![plugin("greedy.so", &[""], &["everything"])];
    let (mut d, action) = Dispatch::begin(&channel_message("+help"), &registry, None);
    assert_eq!(action, public("\x0314[\x0304Commands\x0314] \x0314everything"));
    assert_eq!(d.step(Event::Sent(true)), Action::Done);
}

#[test]
fn private_command_that_nothing_handles_gets_no_reply() {
    let (d, action) = Dispatch::begin(&channel_message("-ping"), &two_modules(), None);
    assert_eq!(action, Action::Done);
    assert_eq!(d.route(), Route::PluginDispatched);
    assert!(d.is_finished());
}

#[test]
fn empty_line_of_an_answer_is_not_sent() {
    let registry = vec![plugin("plugins/dice.so", &["^roll$"], &["roll"])];
    let (mut d, action) = Dispatch::begin(&channel_message("+roll 2d6"), &registry, None);
    assert_eq!(d.route(), Route::PluginDispatched);
    assert_eq!(action, invoke("plugins/dice.so", "roll", "2d6"));
    assert_eq!(d.step(output("first\n\nthird")), public("first"));
    assert_eq!(d.step(Event::Sent(true)), public("third"));
    assert_eq!(d.step(Event::Sent(true)), Action::Done);
    assert!(d.is_finished());
}

#[test]
fn modules_run_in_order_and_each_is_sent_out_before_the_next() {
    let registry = vec![
        plugin("a.so", &["^x"], &[]),
        plugin("skip.so", &["^y"], &[]),
        plugin("b.so", &["x$"], &[]),
    ];
    let (mut d, action) = Dispatch::begin(&channel_message("-x"), &registry, None);
    assert_eq!(action, invoke("a.so", "x", ""));
    assert_eq!(d.step(output("a1\na2")), private("a1"));
    assert_eq!(d.step(Event::Sent(true)), private("a2"));
    assert_eq!(d.step(Event::Sent(true)), invoke("b.so", "x", ""));
    assert_eq!(d.step(output("b1")), private("b1"));
    assert_eq!(d.step(Event::Sent(true)), Action::Done);
}

#[test]
fn module_without_output_is_passed_over() {
    let registry = vec![plugin("a.so", &["^x$"], &[]), plugin("b.so", &["^x$"], &[])];
    let (mut d, action) = Dispatch::begin(&channel_message("+x"), &registry, None);
    assert_eq!(action, invoke("a.so", "x", ""));
    assert_eq!(d.step(Event::Output(None)), invoke("b.so", "x", ""));
    assert_eq!(d.step(Event::Output(Some(vec![0xff, 0xfe]))), Action::Done);
}

#[test]
fn blank_output_sends_nothing() {
    let registry = vec![plugin("a.so", &["^x$"], &[]), plugin("b.so", &["^x$"], &[])];
    let (mut d, _) = Dispatch::begin(&channel_message("+x"), &registry, None);
    assert_eq!(d.step(output("\n   \n\n")), invoke("b.so", "x", ""));
    assert_eq!(d.step(output("")), Action::Done);
}

#[test]
fn long_line_goes_out_in_chunks() {
    let a = "a".repeat(300);
    let b = "b".repeat(300);
    let registry = vec![plugin("a.so", &["^x$"], &[])];
    let (mut d, _) = Dispatch::begin(&channel_message("+x"), &registry, None);
    assert_eq!(d.step(output(&format!("{} {}\nnext", a, b))), public(&a));
    assert_eq!(d.step(Event::Sent(true)), public(&b));
    assert_eq!(d.step(Event::Sent(true)), public("next"));
    assert_eq!(d.step(Event::Sent(true)), Action::Done);
}

#[test]
fn failed_send_drops_the_rest_of_the_line_only() {
    let a = "a".repeat(300);
    let b = "b".repeat(300);
    let registry = vec![plugin("a.so", &["^x$"], &[]), plugin("b.so", &["^x$"], &[])];
    let (mut d, _) = Dispatch::begin(&channel_message("+x"), &registry, None);
    assert_eq!(d.step(output(&format!("{} {}\nnext", a, b))), public(&a));
    assert_eq!(d.step(Event::Sent(false)), public("next"));
    assert_eq!(d.step(Event::Sent(false)), invoke("b.so", "x", ""));
    assert_eq!(d.step(output("last")), public("last"));
    assert_eq!(d.step(Event::Sent(true)), Action::Done);
}

#[test]
fn report_out_of_turn_ends_the_routing() {
    let registry = vec![plugin("a.so", &["^x$"], &[]), plugin("b.so", &["^x$"], &[])];
    let (mut d, _) = Dispatch::begin(&channel_message("+x"), &registry, None);
    assert_eq!(d.step(Event::Sent(true)), Action::Done);
    assert!(d.is_finished());
    let (mut d, _) = Dispatch::begin(&channel_message("+x"), &registry, None);
    assert_eq!(d.step(output("one two")), public("one two"));
    assert_eq!(d.step(output("again")), Action::Done);
    assert_eq!(d.step(Event::Sent(true)), Action::Done);
}

#[test]
fn parameter_reaches_the_module_trimmed() {
    let registry = vec![plugin("a.so", &["^say$"], &[])];
    let (_, action) = Dispatch::begin(&channel_message("+say   hello  world  "), &registry, None);
    assert_eq!(action, invoke("a.so", "say", "hello  world"));
}

#[test]
fn argument_with_a_zero_byte_reaches_no_module() {
    let registry = vec![plugin("a.so", &["^say$"], &[])];
    let (d, action) = Dispatch::begin(&channel_message("+say a\0b"), &registry, None);
    assert_eq!(action, Action::Done);
    assert_eq!(d.route(), Route::PluginDispatched);
}

#[test]
fn command_names_are_case_sensitive() {
    let registry = vec![plugin("a.so", &["^roll$"], &[])];
    let (_, action) = Dispatch::begin(&channel_message("+Roll"), &registry, None);
    assert_eq!(action, Action::Done);
    let (_, action) = Dispatch::begin(&channel_message("+Help"), &registry, None);
    assert_eq!(action, Action::Done);
}

#[test]
fn reload_is_for_the_designated_identity() {
    let admin = Some("alice!user@host");
    let (mut d, action) = Dispatch::begin(&channel_message("+reload"), &two_modules(), admin);
    assert_eq!(d.route(), Route::BuiltinHandled);
    assert_eq!(action, Action::Reload);
    assert_eq!(d.step(Event::Reloaded), Action::Done);

    let (d, action) =
        Dispatch::begin(&channel_message("+reload"), &two_modules(), Some("bob!user@host"));
    assert_eq!(d.route(), Route::BuiltinHandled);
    assert_eq!(action, Action::Done);

    let (_, action) = Dispatch::begin(&channel_message("+reload"), &two_modules(), None);
    assert_eq!(action, Action::Done);
}

#[test]
fn reload_never_reaches_a_module() {
    let registry = vec![plugin("a.so", &["^reload$"], &[])];
    let (_, action) = Dispatch::begin(&channel_message("+reload"), &registry, None);
    assert_eq!(action, Action::Done);
}

#[test]
fn finished_routing_stays_finished() {
    let (mut d, _) = Dispatch::begin(&channel_message("hello"), &two_modules(), None);
    assert_eq!(d.step(Event::Sent(true)), Action::Done);
    assert_eq!(d.step(Event::Reloaded), Action::Done);
    assert_eq!(d.step(output("text")), Action::Done);
    assert!(d.is_finished());
}
