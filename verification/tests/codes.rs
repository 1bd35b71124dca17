use lua_bridge::LuaGC;
use lua_bridge::LuaStatus;

#[test]
fn status_codes_match_engine_constants() {
    assert_eq!(LuaStatus::Normal.code(), 0);
    assert_eq!(LuaStatus::Yielded.code(), 1);
    assert_eq!(LuaStatus::RuntimeError.code(), 2);
    assert_eq!(LuaStatus::SyntaxError.code(), 3);
    assert_eq!(LuaStatus::MemoryError.code(), 4);
    assert_eq!(LuaStatus::HandlerError.code(), 5);
}

#[test]
fn status_from_code_round_trips() {
    for c in 0i32..=5i32 {
        let s = LuaStatus::from_code(c).unwrap();
        assert_eq!(s.code(), c);
    }
    assert!(LuaStatus::from_code(-1).is_none());
    assert!(LuaStatus::from_code(6).is_none());
}

#[test]
fn status_error_classes() {
    assert!(!LuaStatus::Normal.is_error());
    assert!(!LuaStatus::Yielded.is_error());
    assert!(LuaStatus::RuntimeError.is_error());
    assert!(LuaStatus::SyntaxError.is_error());
    assert!(LuaStatus::MemoryError.is_error());
    assert!(LuaStatus::HandlerError.is_error());
}

#[test]
fn gc_codes_match_engine_constants() {
    assert_eq!(LuaGC::Stop.code(), 0);
    assert_eq!(LuaGC::Restart.code(), 1);
    assert_eq!(LuaGC::Collect.code(), 2);
    assert_eq!(LuaGC::Count.code(), 3);
    assert_eq!(LuaGC::CountBytes.code(), 4);
    assert_eq!(LuaGC::Step.code(), 5);
    assert_eq!(LuaGC::SetPause.code(), 6);
    assert_eq!(LuaGC::SetStepMul.code(), 7);
    assert_eq!(LuaGC::SetMajorInc.code(), 8);
    assert_eq!(LuaGC::IsRunning.code(), 9);
    assert_eq!(LuaGC::Generational.code(), 10);
    assert_eq!(LuaGC::Incremental.code(), 11);
}

#[test]
fn gc_from_code_round_trips() {
    for c in 0i32..=11i32 {
        let g = LuaGC::from_code(c).unwrap();
        assert_eq!(g.code(), c);
    }
    assert!(LuaGC::from_code(-1).is_none());
    assert!(LuaGC::from_code(12).is_none());
}

#[test]
fn gc_data_bearing_operations() {
    assert!(LuaGC::Step.uses_data());
    assert!(LuaGC::SetPause.uses_data());
    assert!(LuaGC::SetStepMul.uses_data());
    assert!(LuaGC::SetMajorInc.uses_data());
    assert!(!LuaGC::Stop.uses_data());
    assert!(!LuaGC::Collect.uses_data());
    assert!(!LuaGC::Count.uses_data());
    assert!(!LuaGC::IsRunning.uses_data());
}
