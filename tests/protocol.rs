use gadgets::server::GadgetServer;

#[test]
fn counter_increments_from_zero() {
    let mut s = GadgetServer::new();
    assert_eq!(s.process_command("counter receive increment"), "1");
    assert_eq!(s.process_command("counter receive increment"), "2");
    assert_eq!(s.process_command("counter receive increment"), "3");
    assert_eq!(s.process_command("counter current"), "3");
}

#[test]
fn maxcell_keeps_the_largest() {
    let mut s = GadgetServer::new();
    assert_eq!(s.process_command("maxcell receive 5"), "5");
    assert_eq!(s.process_command("maxcell receive 3"), "5");
    assert_eq!(s.process_command("maxcell current"), "5");
}

#[test]
fn unknown_gadget_is_not_found() {
    let mut s = GadgetServer::new();
    assert_eq!(s.process_command("bogus current"), "ERROR: Gadget 'bogus' not found");
    assert_eq!(
        s.process_command("bogus receive increment"),
        "ERROR: Gadget 'bogus' not found"
    );
}

#[test]
fn created_counter_is_addressable() {
    let mut s = GadgetServer::new();
    assert_eq!(s.process_command("counter create myctr"), "Created counter 'myctr'");
    assert_eq!(s.process_command("myctr receive increment"), "1");
    assert_eq!(s.process_command("counter current"), "0");
}

#[test]
fn created_maxcell_is_named_by_its_initial_value() {
    let mut s = GadgetServer::new();
    assert_eq!(
        s.process_command("maxcell create 7"),
        "Created maxcell with initial value 7"
    );
    assert_eq!(s.process_command("maxcell_7 current"), "7");
    assert_eq!(s.process_command("maxcell_7 receive 4"), "7");
    assert_eq!(s.process_command("maxcell_7 receive 12"), "12");
}

#[test]
fn created_maxcell_defaults_to_zero_on_bad_data() {
    let mut s = GadgetServer::new();
    assert_eq!(
        s.process_command("maxcell create abc"),
        "Created maxcell with initial value 0"
    );
    assert_eq!(s.process_command("maxcell_0 current"), "0");
}

#[test]
fn create_overwrites_an_existing_name() {
    let mut s = GadgetServer::new();
    assert_eq!(s.process_command("counter receive increment"), "1");
    assert_eq!(s.process_command("counter create counter"), "Created counter 'counter'");
    assert_eq!(s.process_command("counter current"), "0");
    assert_eq!(s.process_command("x list"), "Gadgets: counter, maxcell");
}

#[test]
fn list_names_in_insertion_order() {
    let mut s = GadgetServer::new();
    assert_eq!(s.process_command("any list"), "Gadgets: counter, maxcell");
    s.process_command("counter create c2");
    assert_eq!(s.process_command("any list"), "Gadgets: counter, maxcell, c2");
}

#[test]
fn unknown_kind_on_create() {
    let mut s = GadgetServer::new();
    assert_eq!(s.process_command("widget create w"), "ERROR: Unknown gadget type 'widget'");
}

#[test]
fn unknown_action_is_reported() {
    let mut s = GadgetServer::new();
    assert_eq!(s.process_command("counter frobnicate"), "ERROR: Unknown action 'frobnicate'");
}

#[test]
fn short_requests_are_malformed() {
    let mut s = GadgetServer::new();
    let msg = "ERROR: Invalid command format. Use: GADGET_NAME COMMAND [DATA]";
    assert_eq!(s.process_command(""), msg);
    assert_eq!(s.process_command("   "), msg);
    assert_eq!(s.process_command("counter"), msg);
    assert_eq!(s.process_command("list"), msg);
}

#[test]
fn bad_integer_leaves_maxcell_unchanged() {
    let mut s = GadgetServer::new();
    assert_eq!(s.process_command("maxcell receive 9"), "9");
    assert_eq!(s.process_command("maxcell receive nine"), "ERROR: Invalid integer");
    assert_eq!(s.process_command("maxcell receive"), "ERROR: Invalid integer");
    assert_eq!(s.process_command("maxcell current"), "9");
}

#[test]
fn extra_whitespace_is_ignored() {
    let mut s = GadgetServer::new();
    assert_eq!(s.process_command("  counter \t receive   increment  "), "1");
    assert_eq!(s.process_command("maxcell receive   -4"), "0");
    assert_eq!(s.process_command("counter receive reset now"), "1");
}

#[test]
fn counter_commands_over_the_wire() {
    let mut s = GadgetServer::new();
    assert_eq!(s.process_command("counter receive decrement"), "-1");
    assert_eq!(s.process_command("counter receive decrement"), "-2");
    assert_eq!(s.process_command("counter receive other"), "-2");
    assert_eq!(s.process_command("counter receive"), "-2");
    assert_eq!(s.process_command("counter receive reset"), "0");
}
