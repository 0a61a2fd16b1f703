use script_bridge::LuaScriptData;

#[test]
fn script_data_keeps_its_id() {
    assert_eq!(LuaScriptData::new(42).sid(), 42);
    assert_eq!(LuaScriptData::new(0).sid(), 0);
}

#[test]
fn script_data_describes_itself() {
    assert_eq!(LuaScriptData::new(7).describe(), "LuaScriptData { sid: 7 }");
    assert_eq!(LuaScriptData::new(0).describe(), "LuaScriptData { sid: 0 }");
    assert_eq!(LuaScriptData::new(10).describe(), "LuaScriptData { sid: 10 }");
    assert_eq!(LuaScriptData::new(1905).describe(), "LuaScriptData { sid: 1905 }");
    assert_eq!(LuaScriptData::new(u32::MAX).describe(), "LuaScriptData { sid: 4294967295 }");
}

#[test]
fn script_data_description_matches_debug() {
    for sid in [0u32, 9, 10, 99, 100, 65535, 1000000, u32::MAX] {
        let data = LuaScriptData::new(sid);
        assert_eq!(data.describe(), format!("{:?}", data));
    }
}

#[test]
fn script_data_compares_by_id() {
    assert_eq!(LuaScriptData::new(3), LuaScriptData::new(3));
    assert_ne!(LuaScriptData::new(3), LuaScriptData::new(4));
}
