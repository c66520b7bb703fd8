use cps::errortype::ErrorType;
use cps::names::NameMap;
use cps::replay::ReplayContext;
use cps::value::{FileMode, Value};

#[test]
fn outputs_already_shown_are_passed_over() {
    let mut ctx = ReplayContext::new(Vec::new());
    ctx.output_skip = 2;
    assert!(ctx.emit_output("a".to_string()).is_ok());
    assert!(ctx.emit_output("b".to_string()).is_ok());
    match ctx.emit_output("c".to_string()) {
        Err(e) => match e.error_type {
            ErrorType::StepOutput(line) => assert_eq!(line, "c"),
            _ => panic!("expected an output signal"),
        },
        Ok(()) => panic!("expected the run to stop"),
    }
    assert_eq!(ctx.output_skip, 0);
}

#[test]
fn inputs_are_given_in_order_then_asked_for() {
    let mut ctx = ReplayContext::new(vec!["1".to_string(), "2".to_string()]);
    assert_eq!(ctx.read_input("x").unwrap(), "1");
    assert_eq!(ctx.read_input("y").unwrap(), "2");
    match ctx.read_input("z") {
        Err(e) => match e.error_type {
            ErrorType::StepNeedsInput(v) => assert_eq!(v, "z"),
            _ => panic!("expected an input request"),
        },
        Ok(_) => panic!("expected the run to stop"),
    }
    assert_eq!(ctx.input_pos, 2);
}

#[test]
fn random_values_are_logged_and_replayed() {
    let mut ctx = ReplayContext::new(Vec::new());
    assert!(ctx.next_logged_rand().is_none());
    ctx.log_rand(Value::Integer(4));
    assert_eq!(ctx.rand_pos, 1);
    ctx.rand_pos = 0;
    assert!(matches!(ctx.next_logged_rand(), Some(Value::Integer(4))));
    assert!(ctx.next_logged_rand().is_none());
}

#[test]
fn a_file_in_memory_is_written_then_read() {
    let mut ctx = ReplayContext::new(Vec::new());
    let name = "f.txt".to_string();
    ctx.open_file(name.clone(), FileMode::Write).unwrap();
    ctx.write_line(&name, "one".to_string()).unwrap();
    ctx.write_line(&name, "two".to_string()).unwrap();
    ctx.close_file(&name).unwrap();
    ctx.open_file(name.clone(), FileMode::Read).unwrap();
    assert_eq!(ctx.at_end(&name).unwrap(), false);
    assert_eq!(ctx.read_line(&name).unwrap(), "one");
    assert_eq!(ctx.read_line(&name).unwrap(), "two");
    assert_eq!(ctx.at_end(&name).unwrap(), true);
    let e = ctx.read_line(&name).unwrap_err();
    assert_eq!(e.message, "Cannot read past end of file 'f.txt'");
    let e = ctx.write_line(&name, "x".to_string()).unwrap_err();
    assert_eq!(e.message, "Cannot write to file 'f.txt': file is opened in read mode");
}

#[test]
fn appending_keeps_the_lines_and_a_replayed_write_is_not_repeated() {
    let mut ctx = ReplayContext::new(Vec::new());
    let name = "log.txt".to_string();
    ctx.open_file(name.clone(), FileMode::Write).unwrap();
    ctx.write_line(&name, "a".to_string()).unwrap();
    ctx.close_file(&name).unwrap();
    // A second run writes the same line again: it is passed over.
    ctx.open_file(name.clone(), FileMode::Append).unwrap();
    ctx.write_line(&name, "a".to_string()).unwrap();
    ctx.write_line(&name, "b".to_string()).unwrap();
    let f = ctx.virtual_fs.get(&name).unwrap();
    assert_eq!(f.lines, vec!["a", "b"]);
    assert_eq!(f.write_pos, 2);
    assert!(f.was_written);
}

#[test]
fn missing_files_are_errors() {
    let mut ctx = ReplayContext::new(Vec::new());
    let name = "none.txt".to_string();
    let e = ctx.close_file(&name).unwrap_err();
    assert_eq!(e.message, "Cannot close file 'none.txt': file is not open");
    let e = ctx.write_line(&name, "x".to_string()).unwrap_err();
    assert_eq!(e.message, "File 'none.txt' is not open");
    let e = ctx.at_end(&name).unwrap_err();
    assert_eq!(e.hint.as_deref(), Some("Make sure to open the file before checking EOF"));
}

#[test]
fn a_name_map_keeps_one_entry_per_name() {
    let mut m: NameMap<i64> = NameMap::new();
    m.insert("a".to_string(), 1);
    m.insert("b".to_string(), 2);
    m.insert("a".to_string(), 3);
    assert_eq!(m.get(&"a".to_string()), Some(&3));
    assert!(m.contains_key(&"b".to_string()));
    assert_eq!(m.remove(&"b".to_string()), Some(2));
    assert!(!m.contains_key(&"b".to_string()));
    assert_eq!(m.remove(&"b".to_string()), None);
}

#[test]
fn a_name_map_lists_its_names_once_each() {
    let mut m: NameMap<i64> = NameMap::new();
    m.insert("b".to_string(), 1);
    m.insert("a".to_string(), 2);
    m.insert("b".to_string(), 3);
    assert_eq!(m.names(), vec!["b".to_string(), "a".to_string()]);
}
