use lua_bridge::BoundaryError;
use lua_bridge::EngineState;
use lua_bridge::LuaGC;
use lua_bridge::LuaStatus;
use lua_bridge::LuaValue;
use lua_bridge::RunOutcome;

fn silent(status: LuaStatus, results: Vec<LuaValue>) -> RunOutcome {
    RunOutcome { status, new_tables: Vec::new(), results, bindings: Vec::new() }
}

#[test]
fn fresh_handles_start_ok_and_empty() {
    let e = EngineState::new();
    assert_eq!(e.status(), 0);
    assert_eq!(e.get_top(), 0);
}

#[test]
fn lifecycle_runs_open_to_close() {
    let mut e = EngineState::new();
    e.open_libs(vec![(String::from("print"), LuaValue::Opaque(6))]);
    e.push_nil();
    e.close();
    // After close the handle accepts no further operation: that is the
    // contract of every other method, asserted here by making no such call.
}

#[test]
fn registration_binds_the_standard_library_names() {
    let mut e = EngineState::new();
    assert_eq!(e.get_global("print").unwrap(), 0);
    e.pop(1);
    e.open_libs(vec![
        (String::from("print"), LuaValue::Opaque(6)),
        (String::from("_VERSION"), LuaValue::Str(String::from("Lua 5.4"))),
    ]);
    assert_eq!(e.get_global("print").unwrap(), 6);
    assert!(e.to_boolean(-1));
    assert_eq!(e.get_global("_VERSION").unwrap(), 4);
    assert_eq!(e.to_string(-1).unwrap(), "Lua 5.4");
    assert_eq!(e.get_global("not_a_library").unwrap(), 0);
}

#[test]
fn opaque_values_keep_their_tag_and_are_truthy() {
    let mut e = EngineState::new();
    e.open_libs(vec![(String::from("print"), LuaValue::Opaque(6))]);
    e.get_global("print").unwrap();
    assert_eq!(e.get_type(-1), 6);
    assert!(e.to_boolean(-1));
    assert_eq!(e.to_number(-1), 0);
    assert!(e.to_string(-1).is_none());
}

#[test]
fn a_run_can_report_a_table_it_created() {
    let mut e = EngineState::new();
    let outcome = RunOutcome {
        status: LuaStatus::Normal,
        new_tables: vec![vec![(String::from("answer"), LuaValue::Integer(42))]],
        results: vec![LuaValue::Table(0)],
        bindings: Vec::new(),
    };
    assert_eq!(e.do_string("return { answer = 42 }", outcome), Ok(0));
    assert_eq!(e.get_type(-1), 5);
    assert_eq!(e.get_field(-1, "answer").unwrap(), 3);
    assert_eq!(e.to_number(-1), 42);
}

#[test]
fn globals_round_trip_for_each_value_type() {
    let mut e = EngineState::new();

    e.push_string("text").unwrap();
    e.set_global("s").unwrap();
    assert_eq!(e.get_global("s").unwrap(), 4);
    assert_eq!(e.to_string(-1).unwrap(), "text");

    e.push_integer(7);
    e.set_global("n").unwrap();
    assert_eq!(e.get_global("n").unwrap(), 3);
    assert_eq!(e.to_number(-1), 7);

    e.push_boolean(1);
    e.set_global("b").unwrap();
    assert_eq!(e.get_global("b").unwrap(), 1);
    assert!(e.to_boolean(-1));

    e.push_nil();
    e.set_global("z").unwrap();
    assert_eq!(e.get_global("z").unwrap(), 0);
}

#[test]
fn set_global_pops_the_bound_value() {
    let mut e = EngineState::new();
    e.push_integer(3);
    assert_eq!(e.get_top(), 1);
    e.set_global("g").unwrap();
    assert_eq!(e.get_top(), 0);
}

#[test]
fn unbound_globals_read_as_nil() {
    let mut e = EngineState::new();
    assert_eq!(e.get_global("missing").unwrap(), 0);
    assert!(!e.to_boolean(-1));
}

#[test]
fn a_later_binding_overwrites_an_earlier_one() {
    let mut e = EngineState::new();
    e.push_integer(1);
    e.set_global("x").unwrap();
    e.push_integer(2);
    e.set_global("x").unwrap();
    assert_eq!(e.get_global("x").unwrap(), 3);
    assert_eq!(e.to_number(-1), 2);
}

#[test]
fn a_completed_run_reports_ok() {
    let mut e = EngineState::new();
    let r = e.do_string("return 1", silent(LuaStatus::Normal, vec![LuaValue::Integer(1)]));
    assert_eq!(r, Ok(0));
    assert_eq!(e.status(), 0);
    assert_eq!(e.to_number(-1), 1);
}

#[test]
fn a_syntax_failure_reports_its_code_and_leaves_a_message() {
    let mut e = EngineState::new();
    let r = e.do_string(
        "return return",
        silent(
            LuaStatus::SyntaxError,
            vec![LuaValue::Str(String::from("unexpected symbol"))],
        ),
    );
    assert_eq!(r, Ok(3));
    assert_eq!(e.status(), 3);
    assert_ne!(e.get_type(-1), 0);
    assert_eq!(e.to_string(-1).unwrap(), "unexpected symbol");
}

#[test]
fn a_runtime_failure_from_a_file_reports_its_code() {
    let mut e = EngineState::new();
    let r = e.do_file(
        "scripts/none.lua",
        silent(
            LuaStatus::RuntimeError,
            vec![LuaValue::Str(String::from("cannot open scripts/none.lua"))],
        ),
    );
    assert_eq!(r, Ok(2));
    assert_eq!(e.status(), 2);
    assert_eq!(e.to_string(-1).unwrap(), "cannot open scripts/none.lua");
}

#[test]
fn script_text_with_an_embedded_nul_never_reaches_the_engine() {
    let mut e = EngineState::new();
    let r = e.do_string("bad\0script", silent(LuaStatus::Normal, Vec::new()));
    assert_eq!(r, Err(BoundaryError::EmbeddedNul));
    assert_eq!(e.status(), 0);
    assert_eq!(e.get_top(), 0);
}

#[test]
fn bindings_a_run_made_are_observable() {
    let mut e = EngineState::new();
    let outcome = RunOutcome {
        status: LuaStatus::Normal,
        new_tables: Vec::new(),
        results: Vec::new(),
        bindings: vec![(String::from("x"), LuaValue::Integer(5))],
    };
    assert_eq!(e.do_string("x = 5", outcome), Ok(0));
    assert_eq!(e.get_global("x").unwrap(), 3);
    assert_eq!(e.to_number(-1), 5);
}

#[test]
fn a_yielding_resume_leaves_the_yielded_values_on_top() {
    let mut e = EngineState::new();
    e.push_integer(1);
    e.push_integer(2);
    let r = e.resume(
        2,
        silent(
            LuaStatus::Yielded,
            vec![LuaValue::Integer(10), LuaValue::Integer(20)],
        ),
    );
    assert_eq!(r, 1);
    assert_eq!(e.status(), 1);
    assert_eq!(e.get_top(), 2);
    assert_eq!(e.to_number(-2), 10);
    assert_eq!(e.to_number(-1), 20);

    let done = e.resume(0, silent(LuaStatus::Normal, vec![LuaValue::Integer(99)]));
    assert_eq!(done, 0);
    assert_eq!(e.status(), 0);
    assert_eq!(e.to_number(-1), 99);
}

#[test]
fn table_fields_round_trip() {
    let mut e = EngineState::new();
    let id = e.register_table();
    assert_eq!(id, 0);
    assert_eq!(e.get_type(-1), 5);
    e.push_string("val").unwrap();
    e.set_filed(1, "k").unwrap();
    assert_eq!(e.get_top(), 1);
    assert_eq!(e.get_field(1, "k").unwrap(), 4);
    assert_eq!(e.to_string(-1).unwrap(), "val");
}

#[test]
fn an_absent_field_reads_as_nil() {
    let mut e = EngineState::new();
    e.register_table();
    assert_eq!(e.get_field(1, "nothing").unwrap(), 0);
    assert_eq!(e.get_type(-1), 0);
}

#[test]
fn a_table_can_hold_itself() {
    let mut e = EngineState::new();
    e.register_table();
    e.set_filed(-1, "me").unwrap();
    assert_eq!(e.get_top(), 0);
    e.register_table();
    assert_eq!(e.get_top(), 1);
}

#[test]
fn the_collector_stops_and_restarts() {
    let mut e = EngineState::new();
    assert_eq!(e.collect_garbage(LuaGC::IsRunning, 0, 0), 1);
    assert_eq!(e.collect_garbage(LuaGC::Stop, 0, 0), 0);
    assert_eq!(e.collect_garbage(LuaGC::IsRunning, 0, 0), 0);
    assert_eq!(e.collect_garbage(LuaGC::Restart, 0, 0), 0);
    assert_eq!(e.collect_garbage(LuaGC::IsRunning, 0, 0), 1);
}

#[test]
fn collector_settings_answer_the_previous_value() {
    let mut e = EngineState::new();
    assert_eq!(e.collect_garbage(LuaGC::SetPause, 150, 0), 200);
    assert_eq!(e.collect_garbage(LuaGC::SetPause, 175, 0), 150);
    assert_eq!(e.collect_garbage(LuaGC::SetStepMul, 300, 0), 100);
    assert_eq!(e.collect_garbage(LuaGC::SetStepMul, 100, 0), 300);
}

#[test]
fn mode_switches_answer_the_previous_mode() {
    let mut e = EngineState::new();
    assert_eq!(e.collect_garbage(LuaGC::Generational, 0, 0), 11);
    assert_eq!(e.collect_garbage(LuaGC::Generational, 0, 0), 10);
    assert_eq!(e.collect_garbage(LuaGC::Incremental, 0, 0), 10);
    assert_eq!(e.collect_garbage(LuaGC::Incremental, 0, 0), 11);
}

#[test]
fn heap_counts_relay_what_the_engine_reported() {
    let mut e = EngineState::new();
    assert_eq!(e.collect_garbage(LuaGC::Count, 0, 321), 321);
    assert_eq!(e.collect_garbage(LuaGC::CountBytes, 0, 87), 87);
    assert_eq!(e.collect_garbage(LuaGC::Step, 0, 1), 1);
    assert_eq!(e.collect_garbage(LuaGC::Collect, 0, 0), 0);
}

#[test]
fn the_major_increment_code_is_not_an_operation_of_this_engine() {
    let mut e = EngineState::new();
    assert_eq!(e.collect_garbage(LuaGC::SetMajorInc, 5, 0), -1);
}

#[test]
fn field_names_with_an_embedded_nul_are_refused() {
    let mut e = EngineState::new();
    e.register_table();
    e.push_integer(1);
    assert_eq!(e.set_filed(1, "a\0b"), Err(BoundaryError::EmbeddedNul));
    assert_eq!(e.get_top(), 2);
    assert_eq!(e.get_field(1, "c\0d"), Err(BoundaryError::EmbeddedNul));
}
