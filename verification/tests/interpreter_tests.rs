use macroword::interpreter::{str_less_than, Interpreter, StepAction};
use macroword::variables::{Object, Resolved};

/// Drive the machine to completion, collecting everything it prints.
/// Panics on actions a finished test program should not produce.
fn run_to_done(interp: &mut Interpreter) -> Vec<String> {
    let mut outputs = Vec::new();
    loop {
        match interp.step() {
            StepAction::Continue => {}
            StepAction::Done => return outputs,
            StepAction::Output(s) => outputs.push(s),
            other => panic!("unexpected action: {:?}", other),
        }
    }
}

fn var_text(interp: &Interpreter, name: &str) -> String {
    match interp.variables.get(name, &interp.settings) {
        Resolved::Value(Object::Text(s)) => s,
        other => panic!("{} resolved to {:?}", name, other),
    }
}

#[test]
fn empty_program_finishes_at_once() {
    let mut interp = Interpreter::new(String::new());
    assert_eq!(interp.step(), StepAction::Done);
}

#[test]
fn swap_buffer_exchanges_the_buffers() {
    let mut interp = Interpreter::new(String::from("$:"));
    interp.primary.push(String::from("p1"));
    interp.secondary.push(String::from("s1"));
    interp.secondary.push(String::from("s2"));
    run_to_done(&mut interp);
    assert_eq!(interp.primary, vec![String::from("s1"), String::from("s2")]);
    assert_eq!(interp.secondary, vec![String::from("p1")]);
}

#[test]
fn skip_next_appends_the_raw_word() {
    // `$;` is read raw, so it is buffered, not executed.
    let mut interp = Interpreter::new(String::from("$\" $;"));
    run_to_done(&mut interp);
    assert_eq!(interp.primary, vec![String::from("$;")]);
}

#[test]
fn skip_next_at_end_of_input_ends_the_run() {
    let mut interp = Interpreter::new(String::from("$\""));
    assert_eq!(interp.step(), StepAction::Done);
    assert!(interp.primary.is_empty());
}

#[test]
fn join_values_concatenates_top_two() {
    let mut interp = Interpreter::new(String::from("$,"));
    interp.primary.push(String::from("left"));
    interp.primary.push(String::from("right"));
    run_to_done(&mut interp);
    assert_eq!(interp.primary, vec![String::from("leftright")]);
}

#[test]
fn join_values_on_single_entry_keeps_it() {
    let mut interp = Interpreter::new(String::from("$,"));
    interp.primary.push(String::from("only"));
    run_to_done(&mut interp);
    assert_eq!(interp.primary, vec![String::from("only")]);
}

#[test]
fn join_values_on_empty_buffer_is_a_no_op() {
    let mut interp = Interpreter::new(String::from("$,"));
    run_to_done(&mut interp);
    assert!(interp.primary.is_empty());
}

#[test]
fn end_line_stores_and_clears_both_buffers() {
    let mut interp = Interpreter::new(String::from("$;"));
    interp.secondary.push(String::from("x"));
    interp.primary.push(String::from("y"));
    interp.primary.push(String::from("z"));
    run_to_done(&mut interp);
    assert!(interp.primary.is_empty());
    assert!(interp.secondary.is_empty());
    assert_eq!(var_text(&interp, "x"), "y z");
}

#[test]
fn end_line_clears_regardless_of_prior_contents() {
    let mut interp = Interpreter::new(String::from("$; $;"));
    interp.primary.push(String::from("a"));
    run_to_done(&mut interp);
    assert!(interp.primary.is_empty());
    assert!(interp.secondary.is_empty());
}

#[test]
fn expand_previous_expands_stored_text() {
    let program = String::from("$\" v $: $\" e $\" f $\" g $; $\" v $!");
    let mut interp = Interpreter::new(program);
    run_to_done(&mut interp);
    assert_eq!(
        interp.primary,
        vec![String::from("e"), String::from("f"), String::from("g")]
    );
}

#[test]
fn expand_previous_requeues_a_keyword_word() {
    // The popped word names an instruction, so its literal text is pushed
    // back as source and executed on the next iteration.
    let mut interp = Interpreter::new(String::from("$!"));
    interp.primary.push(String::from("$:"));
    interp.secondary.push(String::from("s1"));
    run_to_done(&mut interp);
    assert_eq!(interp.primary, vec![String::from("s1")]);
    assert!(interp.secondary.is_empty());
}

#[test]
fn expand_previous_on_empty_buffer_is_a_no_op() {
    let mut interp = Interpreter::new(String::from("$!"));
    run_to_done(&mut interp);
    assert!(interp.primary.is_empty());
}

#[test]
fn crazy_swap_interleaves_program_and_buffer() {
    let mut interp = Interpreter::new(String::from("$? a b c"));
    interp.primary.push(String::from("p1"));
    interp.primary.push(String::from("p2"));
    run_to_done(&mut interp);
    // The two raw words land on the buffer, second first; the two popped
    // entries were re-read as source (resolving to empty text) before `c`.
    assert_eq!(interp.primary, vec![String::from("b"), String::from("a")]);
}

#[test]
fn crazy_swap_with_short_buffer_and_input() {
    let mut interp = Interpreter::new(String::from("$?"));
    run_to_done(&mut interp);
    assert!(interp.primary.is_empty());
}

#[test]
fn dereference_last_stores_the_double_lookup() {
    let mut interp = Interpreter::new(String::from("$&"));
    interp
        .variables
        .set(String::from("a"), String::from("b"), &mut interp.settings);
    interp
        .variables
        .set(String::from("b"), String::from("c"), &mut interp.settings);
    interp.primary.push(String::from("a"));
    run_to_done(&mut interp);
    assert_eq!(interp.primary, vec![String::from("a")]);
    assert_eq!(var_text(&interp, "a"), "c");
}

#[test]
fn dereference_last_can_alias_an_instruction() {
    // `sw` holds the text `$:`; dereferencing stores the keyword itself
    // under `sw`, which then executes as a swap.
    let program = String::from("$& sw");
    let mut interp = Interpreter::new(program);
    interp
        .variables
        .set(String::from("sw"), String::from("$:"), &mut interp.settings);
    interp.primary.push(String::from("sw"));
    interp.secondary.push(String::from("s1"));
    run_to_done(&mut interp);
    // The swap ran with P = ["sw"], S = ["s1"].
    assert_eq!(interp.primary, vec![String::from("s1")]);
    assert_eq!(interp.secondary, vec![String::from("sw")]);
}

#[test]
fn if_less_does_not_skip_when_next_is_less() {
    // Ordinal comparison: "10" < "9" holds ('1' < '9'), so the token after
    // `$<` is executed, not skipped — a numeric ordering would skip it.
    let mut interp = Interpreter::new(String::from("$< $\" q"));
    interp.primary.push(String::from("10"));
    interp.primary.push(String::from("9"));
    run_to_done(&mut interp);
    assert_eq!(interp.primary, vec![String::from("q")]);
}

#[test]
fn if_less_skips_when_next_is_not_less() {
    let mut interp = Interpreter::new(String::from("$< $\" q"));
    interp.primary.push(String::from("9"));
    interp.primary.push(String::from("10"));
    run_to_done(&mut interp);
    // `$"` was discarded unexecuted; `q` resolved to empty text.
    assert!(interp.primary.is_empty());
}

#[test]
fn if_less_on_empty_buffer_skips() {
    let mut interp = Interpreter::new(String::from("$< $\" q"));
    run_to_done(&mut interp);
    assert!(interp.primary.is_empty());
}

#[test]
fn if_less_with_one_entry_does_not_skip() {
    let mut interp = Interpreter::new(String::from("$< $\" q"));
    interp.primary.push(String::from("only"));
    run_to_done(&mut interp);
    assert_eq!(interp.primary, vec![String::from("q")]);
}

#[test]
fn output_is_handed_to_the_host() {
    let program = String::from("$\" $o $: $\" hello $;");
    let mut interp = Interpreter::new(program);
    let outputs = run_to_done(&mut interp);
    assert_eq!(outputs, vec![String::from("hello")]);
}

#[test]
fn file_read_is_delegated_and_resumed() {
    let mut interp = Interpreter::new(String::from("$f"));
    match interp.step() {
        StepAction::ReadFile(path) => assert_eq!(path, ""),
        other => panic!("expected a file read, got {:?}", other),
    }
    // The host hands the contents back; they become new source.
    let act = interp.resume_file(String::from("$\" w"));
    assert_eq!(act, StepAction::Continue);
    run_to_done(&mut interp);
    assert_eq!(interp.primary, vec![String::from("w")]);
}

#[test]
fn fatal_input_stops_the_run() {
    let mut interp = Interpreter::new(String::from("$i"));
    assert_eq!(interp.step(), StepAction::FatalInput);
    let mut interp = Interpreter::new(String::from("$I"));
    assert_eq!(interp.step(), StepAction::FatalNonBlockingInput);
}

#[test]
fn fatal_writes_stop_the_run() {
    let program = String::from("$\" $c $: $\" ls $;");
    let mut interp = Interpreter::new(program);
    loop {
        match interp.step() {
            StepAction::Continue => {}
            StepAction::FatalConsole => break,
            other => panic!("expected a fatal stop, got {:?}", other),
        }
    }
}

#[test]
fn changing_uniques_takes_effect_on_the_next_word() {
    // `$u` is set to `+` mid-run; the very next tokenization splits on it.
    let program = String::from("$\" $u $: $\" + $; $\" a+b");
    let mut interp = Interpreter::new(program);
    run_to_done(&mut interp);
    assert_eq!(interp.settings.get_uniques(), "+");
    assert_eq!(interp.primary, vec![String::from("a")]);
}

#[test]
fn macro_expansion_interleaves_stored_text() {
    // `m` holds text that buffers a word; executing `m` expands it in
    // place, ahead of the rest of the program.
    let program = String::from("$\" m $: $\" $\" $\" inner $; m $\" outer");
    let mut interp = Interpreter::new(program);
    run_to_done(&mut interp);
    assert_eq!(
        interp.primary,
        vec![String::from("inner"), String::from("outer")]
    );
}

#[test]
fn end_to_end_program_state() {
    // Derived instruction by instruction from the dispatch tables: both
    // `EndLine`s run with an empty secondary buffer, so the empty name is
    // bound (twice) to "x" and `x` itself is never assigned.
    let program = String::from("$\" x $; y $: $\" x $; z");
    let mut interp = Interpreter::new(program);
    run_to_done(&mut interp);
    assert_eq!(var_text(&interp, "x"), "");
    assert_eq!(var_text(&interp, ""), "x");
    assert_eq!(var_text(&interp, "$n"), "");
    assert_eq!(var_text(&interp, "$v"), "x");
    assert!(interp.primary.is_empty());
    assert!(interp.secondary.is_empty());
}

#[test]
fn str_less_than_is_ordinal_not_numeric() {
    assert!(str_less_than(String::from("10"), String::from("9")));
    assert!(!str_less_than(String::from("9"), String::from("10")));
    assert!(!str_less_than(String::from("a"), String::from("a")));
    assert!(str_less_than(String::from("a"), String::from("ab")));
    assert!(!str_less_than(String::from("ab"), String::from("a")));
    assert!(str_less_than(String::from("abc"), String::from("abd")));
}

#[test]
fn dereference_last_through_a_file_read() {
    // `a` holds `$f`, so the second-level lookup needs the host: the step
    // leaves a pending store and the resumed contents land under `a`.
    let mut interp = Interpreter::new(String::from("$&"));
    interp
        .variables
        .set(String::from("a"), String::from("$f"), &mut interp.settings);
    interp.primary.push(String::from("a"));
    match interp.step() {
        StepAction::ReadFile(path) => assert_eq!(path, ""),
        other => panic!("expected a file read, got {:?}", other),
    }
    let act = interp.resume_file(String::from("contents"));
    assert_eq!(act, StepAction::Continue);
    run_to_done(&mut interp);
    assert_eq!(var_text(&interp, "a"), "contents");
    assert_eq!(interp.primary, vec![String::from("a")]);
}

#[test]
fn dereference_last_of_an_unbound_target_stores_empty_text() {
    // `a` holds `missing`, which is unbound: the double dereference stores
    // empty text under `a`.
    let mut interp = Interpreter::new(String::from("$&"));
    interp.variables.set(
        String::from("a"),
        String::from("missing"),
        &mut interp.settings,
    );
    interp.primary.push(String::from("a"));
    run_to_done(&mut interp);
    assert_eq!(var_text(&interp, "a"), "");
}

#[test]
fn crazy_swap_with_one_buffer_entry_and_one_word() {
    let mut interp = Interpreter::new(String::from("$? lone"));
    interp.primary.push(String::from("p1"));
    run_to_done(&mut interp);
    // One raw word was read and buffered; the one popped entry was re-read
    // as source and resolved to empty text.
    assert_eq!(interp.primary, vec![String::from("lone")]);
}

#[test]
fn if_less_skip_at_end_of_input_ends_quietly() {
    let mut interp = Interpreter::new(String::from("$<"));
    run_to_done(&mut interp);
    assert!(interp.primary.is_empty());
}
