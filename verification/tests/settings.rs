use taskmanager::lines::{format_line, parse_line};
use taskmanager::manager::ParameterManager;
use taskmanager::mapcode::extract_mapcode;
use taskmanager::params::{Listener, Param, ParamRange, ParamRule, ParamType};
use taskmanager::table::Table;
use taskmanager::text::{
    chars_of, decimal_of, find, matches_at, parse_i32, slice, starts_with, strip, text_of,
    white_space, Strip,
};

fn chars(text: &str) -> Vec<char> {
    text.chars().collect()
}

fn get_parameter_int(manager: &ParameterManager, key: &str, default_value: i32) -> i32 {
    if manager.contains_key(key) {
        manager.get_parameter_string(key, "").parse::<f64>().ok().map(|f| f as i32).unwrap_or(default_value)
    } else {
        default_value
    }
}

fn get_parameter_float(manager: &ParameterManager, key: &str, default_value: f32) -> f32 {
    if manager.contains_key(key) {
        manager.get_parameter_string(key, "").parse::<f32>().unwrap_or(default_value)
    } else {
        default_value
    }
}

fn restore(manager: &mut ParameterManager, input: &str, override_existing: bool) -> bool {
    let mut result = false;
    for line in input.split_inclusive('\n') {
        assert!(manager.can_restore_line(line, override_existing));
        if manager.restore_line(line, override_existing).is_some() {
            result = true;
        }
    }
    result
}

#[test]
fn main_test_parameter_manager() {
    let mut p_params = ParameterManager::new();

    let _callback_id_w = p_params.register_callback("param*");

    p_params.set_parameter("paramA", "ABC");
    assert_eq!(p_params.get_parameter_string("paramA", "HOGE"), "ABC");

    p_params.set_parameter("paramB", &true.to_string());
    assert_eq!(p_params.get_parameter_string("paramB", "false"), "true");
    assert_eq!(p_params.get_parameter_bool("paramB", false), true);

    p_params.set_parameter("paramC", &1.to_string());
    assert_eq!(get_parameter_int(&p_params, "paramC", 0), 1);
    assert_eq!(get_parameter_int(&p_params, "paramD", -1), -1);

    let int_value: i32 = get_parameter_int(&p_params, "paramC", 0);
    assert_eq!(int_value, 1);

    let int_value2: i32 = get_parameter_int(&p_params, "paramC", 0);
    assert_eq!(int_value2, 1);

    p_params.set_parameter("paramE", "1.5");
    assert_eq!(p_params.get_parameter_string("paramE", ""), "1.5");
    assert_eq!(get_parameter_int(&p_params, "paramE", 0), 1);
    assert_eq!(get_parameter_float(&p_params, "paramE", 0.0), 1.5);
    assert_eq!(p_params.get_parameter_bool("paramE", true), false);

    p_params.set_parameter("ro.paramD", &1.to_string());
    assert_eq!(get_parameter_int(&p_params, "ro.paramD", 0), 1);
    p_params.set_parameter("ro.paramD", &2.to_string());
    assert_eq!(get_parameter_int(&p_params, "ro.paramD", 0), 1);
}

#[test]
fn test_test_parameter_manager() {
    let mut p_params = ParameterManager::new();

    let _callback_id_w = p_params.register_callback("param*");

    p_params.set_parameter("paramA", "ABC");
    assert_eq!(p_params.get_parameter_string("paramA", "HOGE"), "ABC");

    p_params.set_parameter("paramB", &true.to_string());
    assert_eq!(p_params.get_parameter_string("paramB", "false"), "true");
    assert_eq!(p_params.get_parameter_bool("paramB", false), true);

    p_params.set_parameter("paramC", &1.to_string());
    assert_eq!(get_parameter_int(&p_params, "paramC", 0), 1);
    assert_eq!(get_parameter_int(&p_params, "paramD", -1), -1);

    let int_value: i32 = get_parameter_int(&p_params, "paramC", 0);
    assert_eq!(int_value, 1);

    let int_value2: i32 = get_parameter_int(&p_params, "paramC", 0);
    assert_eq!(int_value2, 1);

    p_params.set_parameter("paramE", "1.5");
    assert_eq!(p_params.get_parameter_string("paramE", ""), "1.5");
    assert_eq!(get_parameter_int(&p_params, "paramE", 0), 1);
    assert_eq!(get_parameter_float(&p_params, "paramE", 0.0), 1.5);
    assert_eq!(p_params.get_parameter_bool("paramE", true), false);

    p_params.set_parameter("ro.paramD", &1.to_string());
    assert_eq!(get_parameter_int(&p_params, "ro.paramD", 0), 1);
    p_params.set_parameter("ro.paramD", &2.to_string());
    assert_eq!(get_parameter_int(&p_params, "ro.paramD", 0), 1);
}

#[test]
fn main_test_callback() {
    let mut p_params = ParameterManager::new();
    let callback_id = p_params.register_callback("paramA");
    let told = p_params.set_parameter("paramA", "test_value");
    assert_eq!(told, vec![Listener { listener_id: callback_id }]);
    assert_eq!(p_params.get_parameter_string("paramA", ""), "test_value");
}

#[test]
fn test_test_callback() {
    let mut p_params = ParameterManager::new();
    let callback_id = p_params.register_callback("paramA");
    let told = p_params.set_parameter("paramA", "test_value");
    assert_eq!(told.len(), 1);
    assert_eq!(told[0].listener_id, callback_id);
    assert_eq!(p_params.get_parameter_string("paramA", ""), "test_value");
}

#[test]
fn test_rule_int() {
    let mut manager = ParameterManager::new();
    let rule = ParamRule {
        param_type: ParamType::TypeInt,
        range: ParamRange::Ranged,
        range_min: 1,
        range_max: 10,
        enum_vals: Vec::new(),
    };

    manager.set_parameter_rule("example", rule.clone());
    let retrieved_rule = manager.get_parameter_rule("example");
    assert_eq!(retrieved_rule.param_type, ParamType::TypeInt);

    manager.set_parameter("example", "1");
    assert_eq!(get_parameter_int(&manager, "example", 0), 1);

    manager.set_parameter("example", "0");
    assert_eq!(get_parameter_int(&manager, "example", 0), 1);
    manager.set_parameter("example", &0.to_string());
    assert_eq!(get_parameter_int(&manager, "example", 0), 1);
    manager.set_parameter("example", &11.to_string());
    assert_eq!(get_parameter_int(&manager, "example", 0), 10);

    manager.set_parameter("example", &1.0.to_string());
    assert_eq!(get_parameter_int(&manager, "example", 0), 1);

    manager.set_parameter("example", &11.0.to_string());
    assert_eq!(get_parameter_int(&manager, "example", 0), 10);
}

#[test]
fn test_rule_bool() {
    let mut manager = ParameterManager::new();
    let rule = ParamRule {
        param_type: ParamType::TypeBool,
        range: ParamRange::Ranged,
        range_min: -1,
        range_max: 0,
        enum_vals: Vec::new(),
    };

    manager.set_parameter_rule("example", rule.clone());
    let retrieved_rule = manager.get_parameter_rule("example");
    assert_eq!(retrieved_rule.param_type, ParamType::TypeBool);

    manager.set_parameter("example", "true");
    assert_eq!(manager.get_parameter_bool("example", false), true);
    assert_eq!(manager.get_parameter_string("example", "false"), "true");
    assert_eq!(get_parameter_int(&manager, "example", 0), 0);
    assert_eq!(get_parameter_float(&manager, "example", 0.0), 0.0);

    manager.set_parameter("example", "false");
    assert_eq!(manager.get_parameter_bool("example", true), false);
    assert_eq!(manager.get_parameter_string("example", "true"), "false");
    assert_eq!(get_parameter_int(&manager, "example", 0), 0);
    assert_eq!(get_parameter_float(&manager, "example", 0.0), 0.0);
}

#[test]
fn test_rule_string() {
    let mut manager = ParameterManager::new();
    let rule = ParamRule {
        param_type: ParamType::TypeString,
        range: ParamRange::RangeAny,
        range_min: 0,
        range_max: 0,
        enum_vals: Vec::new(),
    };

    manager.set_parameter_rule("example", rule.clone());
    let retrieved_rule = manager.get_parameter_rule("example");
    assert_eq!(retrieved_rule.param_type, ParamType::TypeString);

    manager.set_parameter("example", "low");
    assert_eq!(manager.get_parameter_string("example", ""), "low");
    assert_eq!(get_parameter_int(&manager, "example", 0), 0);
    assert_eq!(get_parameter_float(&manager, "example", 0.0), 0.0);
    assert_eq!(manager.get_parameter_bool("example", true), false);

    manager.set_parameter("example", "1.0");
    assert_eq!(get_parameter_int(&manager, "example", 0), 1);
    assert_eq!(get_parameter_float(&manager, "example", 0.0), 1.0);
    assert_eq!(manager.get_parameter_bool("example", true), false);

    manager.set_parameter("example", "1");
    assert_eq!(get_parameter_int(&manager, "example", 0), 1);
    assert_eq!(get_parameter_float(&manager, "example", 0.0), 1.0);
    assert_eq!(manager.get_parameter_bool("example", true), false);
}

#[test]
fn test_rule_enum() {
    let mut manager = ParameterManager::new();
    let rule = ParamRule {
        param_type: ParamType::TypeString,
        range: ParamRange::RangeEnum,
        range_min: 0,
        range_max: 0,
        enum_vals: ["low", "mid", "high"].iter().map(|s| s.to_string()).collect(),
    };

    manager.set_parameter_rule("example", rule.clone());
    let retrieved_rule = manager.get_parameter_rule("example");
    assert_eq!(retrieved_rule.param_type, ParamType::TypeString);

    manager.set_parameter("example", "low");
    assert_eq!(manager.get_parameter_string("example", ""), "low");

    manager.set_parameter("example", "mid");
    assert_eq!(manager.get_parameter_string("example", ""), "mid");

    manager.set_parameter("example", "high");
    assert_eq!(manager.get_parameter_string("example", ""), "high");

    manager.set_parameter("example", "off");
    assert_eq!(manager.get_parameter_string("example", ""), "high");
}

#[test]
fn test_store_to_stream() {
    let mut manager = ParameterManager::new();
    manager.set_parameter("key1", "value1");
    manager.set_parameter("key2", "value2");

    let lines = manager.store_lines();
    assert!(!lines.is_empty(), "store_to_stream should return true when writing succeeds");

    let output_str = lines.concat();
    let expected_output1 = "\"key1\":\"value1\"\n\"key2\":\"value2\"\n";
    let expected_output2 = "\"key2\":\"value2\"\n\"key1\":\"value1\"\n";

    assert!(
        output_str == expected_output1 || output_str == expected_output2,
        "Unexpected output: {}",
        output_str
    );
}

#[test]
fn test_restore_from_stream_override() {
    let input_data = "\"key1\":\"value1\"\n\"key2\":\"value2\"\n";

    let mut manager = ParameterManager::new();
    let result = restore(&mut manager, input_data, true);
    assert!(result, "restore_from_stream should return true when successful");

    assert_eq!(manager.get_parameter_string("key1", ""), "value1", "key1 should be set to value1");
    assert_eq!(manager.get_parameter_string("key2", ""), "value2", "key2 should be set to value2");
}

#[test]
fn test_restore_from_stream_no_override() {
    let input_data = "\"key1\":\"new_value\"\n\"key2\":\"new_value2\"\n";

    let mut manager = ParameterManager::new();
    manager.set_parameter("key1", "old_value");

    let result = restore(&mut manager, input_data, false);
    assert!(result, "restore_from_stream should return true when successful");

    assert_eq!(
        manager.get_parameter_string("key1", ""),
        "old_value",
        "key1 should retain old_value because override is false"
    );
    assert_eq!(
        manager.get_parameter_string("key2", ""),
        "new_value2",
        "key2 should be set to new_value2"
    );
}

#[test]
fn test_restore_from_stream_empty_input() {
    let input_data = "";

    let mut manager = ParameterManager::new();
    let result = restore(&mut manager, input_data, true);
    assert!(!result, "restore_from_stream should return false on empty input");
}

#[test]
fn test_restore_from_stream_malformed_input() {
    let input_data = "\"key1\" \"value1\"\n\"key2\":\"value2\"\n";

    let mut manager = ParameterManager::new();
    let result = restore(&mut manager, input_data, true);
    assert!(result, "restore_from_stream should return true if at least one line is valid");

    assert!(manager.get_parameter_string("key1", "") == "", "Malformed key1 should not be added");
    assert_eq!(manager.get_parameter_string("key2", ""), "value2", "Valid key2 should be added");
}

#[test]
fn decimal_writes_whole_numbers() {
    assert_eq!(decimal_of(0), "0");
    assert_eq!(decimal_of(7), "7");
    assert_eq!(decimal_of(10), "10");
    assert_eq!(decimal_of(-1), "-1");
    assert_eq!(decimal_of(1203), "1203");
    assert_eq!(decimal_of(i32::MAX), "2147483647");
    assert_eq!(decimal_of(i32::MIN), "-2147483648");
    for n in [-100000, -99, -10, -9, 9, 99, 100, 101, 65536] {
        assert_eq!(decimal_of(n), n.to_string());
    }
}

#[test]
fn parse_reads_what_the_standard_parser_reads() {
    for text in [
        "0", "1", "-1", "+1", "007", "-0", "+0", "2147483647", "2147483648", "-2147483648",
        "-2147483649", "99999999999999999999", "0000000000000000000000012", "", "+", "-", "1.5",
        " 1", "1 ", "--1", "+-1", "1e3", "abc", "12a", "a12", "１２",
    ] {
        assert_eq!(parse_i32(&chars(text)), text.parse::<i32>().ok(), "{:?}", text);
    }
}

#[test]
fn decimal_and_parse_are_inverse() {
    for n in [i32::MIN, -12345, -1, 0, 1, 42, 12345, i32::MAX] {
        assert_eq!(parse_i32(&chars(&decimal_of(n))), Some(n));
    }
}

#[test]
fn characters_and_text_convert_both_ways() {
    assert_eq!(chars_of("héllo ✓"), chars("héllo ✓"));
    assert_eq!(text_of(&chars("héllo ✓")), "héllo ✓");
    assert_eq!(chars_of(""), Vec::<char>::new());
    assert_eq!(text_of(&Vec::new()), "");
}

#[test]
fn strip_takes_white_space_or_quotes_off_both_ends() {
    for text in ["", " ", "  a b  ", "\t\nx\r\n", "x", "\u{3000}wide\u{a0}", " \" q \" "] {
        assert_eq!(text_of(&strip(&chars(text), Strip::WhiteSpace)), text.trim(), "{:?}", text);
        assert_eq!(text_of(&strip(&chars(text), Strip::Quotes)), text.trim_matches('"'), "{:?}", text);
    }
    assert_eq!(text_of(&strip(&chars("\"\"key\"\""), Strip::Quotes)), "key");
    assert_eq!(text_of(&strip(&chars("\"\"\""), Strip::Quotes)), "");
    assert_eq!(text_of(&strip(&chars("\"a\"b\""), Strip::Quotes)), "a\"b");
}

#[test]
fn search_finds_the_first_place() {
    let text = chars("abcabc");
    assert_eq!(find(&text, &chars("bc"), 0), Some(1));
    assert_eq!(find(&text, &chars("bc"), 1), Some(1));
    assert_eq!(find(&text, &chars("bc"), 2), Some(4));
    assert_eq!(find(&text, &chars("bc"), 5), None);
    assert_eq!(find(&text, &chars("x"), 0), None);
    assert_eq!(find(&text, &chars(""), 0), Some(0));
    assert_eq!(find(&text, &chars(""), 6), Some(6));
    assert_eq!(find(&text, &chars(""), 7), None);
    assert_eq!(find(&text, &chars("abcabcd"), 0), None);
    assert!(matches_at(&text, &chars("cab"), 2));
    assert!(!matches_at(&text, &chars("cab"), 3));
    assert!(!matches_at(&text, &chars("c"), 6));
    assert!(matches_at(&text, &chars(""), 6));
    assert!(!matches_at(&text, &chars(""), 7));
    assert!(!matches_at(&text, &chars("bc"), usize::MAX));
    assert!(starts_with(&text, &chars("abc")));
    assert!(starts_with(&text, &chars("")));
    assert!(!starts_with(&text, &chars("bc")));
    assert!(!starts_with(&text, &chars("abcabca")));
    assert_eq!(slice(&text, 1, 4), chars("bca"));
    assert_eq!(slice(&text, 6, 6), chars(""));
}

#[test]
fn table_keeps_keys_in_the_order_in_which_they_came() {
    let mut table: Table<String> = Table::new();
    assert_eq!(table.len(), 0);
    assert_eq!(table.position(&"a".to_string()), 0);
    assert!(!table.contains_key(&"a".to_string()));
    table.insert("a".to_string(), "1".to_string());
    table.insert("b".to_string(), "2".to_string());
    table.insert("a".to_string(), "3".to_string());
    assert_eq!(table.len(), 2);
    assert_eq!(table.position(&"a".to_string()), 0);
    assert_eq!(table.position(&"b".to_string()), 1);
    assert_eq!(table.position(&"c".to_string()), 2);
    assert_eq!(table.get(&"a".to_string()), Some(&"3".to_string()));
    assert_eq!(table.get(&"c".to_string()), None);
    assert_eq!(table.key_at(1), "b");
    assert_eq!(table.value_at(1), "2");
    assert!(table.contains_key(&"b".to_string()));
}

#[test]
fn value_is_trimmed_before_it_is_stored() {
    let mut manager = ParameterManager::new();
    manager.set_parameter("key", "  spaced out \n");
    assert_eq!(manager.get_parameter_string("key", ""), "spaced out");
}

#[test]
fn missing_key_gives_the_default() {
    let manager = ParameterManager::new();
    assert!(!manager.contains_key("none"));
    assert_eq!(manager.get_parameter_string("none", "fallback"), "fallback");
    assert_eq!(manager.get_parameter_bool("none", true), true);
    assert_eq!(manager.get_parameter_bool("none", false), false);
    let rule = manager.get_parameter_rule("none");
    assert_eq!(rule.param_type, ParamType::TypeString);
    assert_eq!(rule.range, ParamRange::RangeAny);
    assert_eq!(rule.range_min, 0);
    assert_eq!(rule.range_max, 0);
    assert!(rule.enum_vals.is_empty());
}

#[test]
fn read_only_key_is_set_once() {
    let mut manager = ParameterManager::new();
    let id = manager.register_callback("ro.key");
    assert_eq!(manager.set_parameter("ro.key", "first"), vec![Listener { listener_id: id }]);
    assert_eq!(manager.set_parameter("ro.key", "second"), Vec::new());
    assert_eq!(manager.get_parameter_string("ro.key", ""), "first");
    manager.set_parameter("row", "1");
    manager.set_parameter("row", "2");
    assert_eq!(manager.get_parameter_string("row", ""), "2");
}

#[test]
fn listeners_are_told_in_groups_wild_cards_first() {
    let mut manager = ParameterManager::new();
    let exact = manager.register_callback("param.a");
    let wide = manager.register_callback("param*");
    let narrow = manager.register_callback("param.a*");
    let wide_again = manager.register_callback("param*");
    let other = manager.register_callback("other*");
    let all = manager.register_callback("*");
    assert_eq!((exact, wide, narrow, wide_again, other, all), (0, 1, 2, 3, 4, 5));
    let told: Vec<usize> = manager.set_parameter("param.a", "1").iter().map(|l| l.listener_id).collect();
    assert_eq!(told, vec![wide, wide_again, narrow, all, exact]);
    let told: Vec<usize> = manager.set_parameter("param.b", "1").iter().map(|l| l.listener_id).collect();
    assert_eq!(told, vec![wide, wide_again, all]);
    let told: Vec<usize> = manager.set_parameter("para", "1").iter().map(|l| l.listener_id).collect();
    assert_eq!(told, vec![all]);
}

#[test]
fn listeners_are_told_only_of_changes() {
    let mut manager = ParameterManager::new();
    let id = manager.register_callback("key");
    assert_eq!(manager.set_parameter("key", "a").len(), 1);
    assert_eq!(manager.set_parameter("key", "a").len(), 0);
    assert_eq!(manager.set_parameter("key", " a ").len(), 0);
    assert_eq!(manager.set_parameter("key", "b"), vec![Listener { listener_id: id }]);
}

#[test]
fn rejected_value_changes_nothing_and_tells_nobody() {
    let mut manager = ParameterManager::new();
    manager.register_callback("flag");
    manager.set_parameter_rule(
        "flag",
        ParamRule {
            param_type: ParamType::TypeBool,
            range: ParamRange::Ranged,
            range_min: 0,
            range_max: 0,
            enum_vals: Vec::new(),
        },
    );
    assert_eq!(manager.set_parameter("flag", "maybe").len(), 0);
    assert!(!manager.contains_key("flag"));
    let mut value = "maybe".to_string();
    assert!(!manager.filter_value_with_rule("flag", &mut value));
    assert_eq!(value, "maybe");
    let mut value = "true".to_string();
    assert!(manager.filter_value_with_rule("flag", &mut value));
    assert_eq!(value, "true");
    assert!(manager.filter_value_with_rule("unruled", &mut value));
}

#[test]
fn ranged_whole_number_is_clamped_and_written_in_decimal() {
    let rule = ParamRule {
        param_type: ParamType::TypeInt,
        range: ParamRange::Ranged,
        range_min: -5,
        range_max: 5,
        enum_vals: Vec::new(),
    };
    for (given, stored) in [("-6", "-5"), ("-5", "-5"), ("0", "0"), ("+3", "3"), ("007", "5"), ("5", "5"), ("x", "x"), ("1.5", "1.5"), ("", "")] {
        let mut value = given.to_string();
        assert!(rule.filter(&mut value));
        assert_eq!(value, stored);
    }
    assert!(rule.lists(&"anything".to_string()) == false);
}

#[test]
fn ranged_fraction_is_not_examined() {
    let rule = ParamRule {
        param_type: ParamType::TypeFloat,
        range: ParamRange::Ranged,
        range_min: -1,
        range_max: 1,
        enum_vals: Vec::new(),
    };
    let mut value = "1.5".to_string();
    assert!(rule.filter(&mut value));
    assert_eq!(value, "1.5");
}

#[test]
fn a_line_holds_a_key_and_a_value_in_quotes() {
    let param = Param { key: "key1".to_string(), value: "value1".to_string() };
    assert_eq!(format_line(&param), "\"key1\":\"value1\"\n");
    let read = parse_line("\"key1\":\"value1\"\n").unwrap();
    assert_eq!(read.key, "key1");
    assert_eq!(read.value, "value1");
    let read = parse_line("  key : \":\"\"\"value\"  ").unwrap();
    assert_eq!(read.key, "key : ");
    assert_eq!(read.value, "value");
    let read = parse_line("\":\"").unwrap();
    assert_eq!(read.key, "");
    assert_eq!(read.value, "");
    let read = parse_line("\":\":\"").unwrap();
    assert_eq!(read.key, "");
    assert_eq!(read.value, ":");
    assert!(parse_line("").is_none());
    assert!(parse_line("\"key1\" \"value1\"").is_none());
    assert!(parse_line("\"a\":\"b\":\"c\"").is_none());
    assert!(parse_line("key:value").is_none());
}

#[test]
fn restore_tells_the_listeners_of_each_line() {
    let mut manager = ParameterManager::new();
    let id = manager.register_callback("key*");
    let lines = ["\"key1\":\"a\"\n", "junk\n", "\"key1\":\"a\"\n", "\"other\":\"b\""];
    let restored: Vec<_> =
        lines.iter().filter_map(|line| manager.restore_line(line, true)).collect();
    assert_eq!(restored.len(), 3);
    assert_eq!(restored[0].key, "key1");
    assert_eq!(restored[0].listeners, vec![Listener { listener_id: id }]);
    assert_eq!(restored[1].key, "key1");
    assert!(restored[1].listeners.is_empty());
    assert_eq!(restored[2].key, "other");
    assert!(restored[2].listeners.is_empty());
    assert!(manager.restore_line("nothing here", true).is_none());
    let kept = manager.restore_line("\"key1\":\"z\"", false).unwrap();
    assert!(kept.listeners.is_empty());
    assert_eq!(manager.get_parameter_string("key1", ""), "a");
}

#[test]
fn map_code_stands_between_the_tag_and_the_next_quote() {
    let page = "<input type=\"text\" name=\"mapcode\" value=\"123 456 789*01\" size=\"20\">";
    assert_eq!(extract_mapcode(page), Some("123 456 789*01".to_string()));
    assert_eq!(extract_mapcode("name=\"mapcode\" value=\"\""), Some(String::new()));
    assert_eq!(extract_mapcode("name=\"mapcode\" value=\"open"), None);
    assert_eq!(extract_mapcode("name=\"mapcode\" value="), None);
    assert_eq!(extract_mapcode(""), None);
    assert_eq!(
        extract_mapcode("name=\"mapcode\" value=\"first\" name=\"mapcode\" value=\"second\""),
        Some("first".to_string())
    );
}

#[test]
fn white_space_is_what_the_standard_library_takes_for_it() {
    let mut white = 0;
    for code in 0..=0x10FFFFu32 {
        if let Some(c) = char::from_u32(code) {
            assert_eq!(white_space(c), c.is_whitespace(), "{:?}", c);
            if white_space(c) {
                white += 1;
            }
        }
    }
    assert_eq!(white, 25);
}

#[test]
fn bounds_out_of_order_are_refused_only_for_a_value_that_is_a_number() {
    let rule = ParamRule {
        param_type: ParamType::TypeInt,
        range: ParamRange::Ranged,
        range_min: 10,
        range_max: 1,
        enum_vals: Vec::new(),
    };
    assert!(!rule.can_filter(&"5".to_string()));
    assert!(rule.can_filter(&"five".to_string()));
    let mut value = "five".to_string();
    assert!(rule.filter(&mut value));
    assert_eq!(value, "five");
    let mut manager = ParameterManager::new();
    manager.set_parameter_rule("example", rule.clone());
    assert!(manager.can_set("example", "five"));
    assert!(manager.can_set("other", "5"));
    assert!(!manager.can_set("example", " 5 "));
    assert!(!manager.can_filter("example", "5"));
    assert!(manager.can_filter("example", " 5 "));
    assert!(manager.set_parameter("example", "five").is_empty());
    assert_eq!(manager.get_parameter_string("example", ""), "five");
    assert!(!manager.can_restore_line("\"example\":\"7\"", true));
    assert!(manager.can_restore_line("\"example\":\"7\"", false));
    assert!(manager.can_restore_line("\"example\":\"seven\"", true));
    assert!(manager.can_restore_line("no line", true));
    let float_rule = ParamRule { param_type: ParamType::TypeFloat, ..rule };
    assert!(float_rule.can_filter(&"5".to_string()));
}
