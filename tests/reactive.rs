use it::camera::MouseLook;
use it::reactive::Var;

#[test]
fn new_var_is_not_changed() {
    let mut v = Var::new(5u32);
    let mut calls = 0;
    v.react(&mut |_| calls += 1);
    assert_eq!(calls, 0);
    assert_eq!(*v.get(), 5);
}

#[test]
fn set_triggers_one_reaction() {
    let mut v = Var::new(5u32);
    v.set(7);
    let mut seen = Vec::new();
    v.react(&mut |x: &u32| seen.push(*x));
    v.react(&mut |x: &u32| seen.push(*x));
    assert_eq!(seen, vec![7]);
}

#[test]
fn modify_replaces_value() {
    let mut v = Var::new(5u32);
    v.modify(&mut |x: &u32| x + 10);
    assert_eq!(*v.get(), 15);
    let mut seen = Vec::new();
    v.react(&mut |x: &u32| seen.push(*x));
    assert_eq!(seen, vec![15]);
}

#[test]
fn modify_mut_edits_in_place() {
    let mut v = Var::new(vec![1u8]);
    v.modify_mut(&mut |x: &mut Vec<u8>| x.push(2));
    assert_eq!(*v.get(), vec![1, 2]);
    let (_, changed) = v.as_components();
    assert!(*changed);
}

#[test]
fn components_write_through() {
    let mut v = Var::new(false);
    {
        let (value, changed) = v.as_components();
        *value = true;
        *changed = true;
    }
    let mut seen = Vec::new();
    v.react(&mut |x: &bool| seen.push(*x));
    assert_eq!(seen, vec![true]);
}

#[test]
fn mouse_look_hides_cursor_while_enabled() {
    let mut m = MouseLook::new(true);
    assert!(m.enabled());
    assert!(!m.cursor_visible());
    m.set(false);
    assert!(!m.enabled());
    assert!(m.cursor_visible());
}

#[test]
fn cleared_flag_through_components_suppresses_reaction() {
    let mut v = Var::new(1u32);
    v.set(2);
    {
        let (value, changed) = v.as_components();
        *value = 3;
        *changed = false;
    }
    let mut calls = 0;
    v.react(&mut |_| calls += 1);
    assert_eq!(calls, 0);
    assert_eq!(*v.get(), 3);
}

#[test]
fn reaction_sees_value_written_by_set() {
    let mut v = Var::new(String::from("old"));
    v.set(String::from("new"));
    let mut seen = Vec::new();
    v.react(&mut |s: &String| seen.push(s.clone()));
    assert_eq!(seen, vec![String::from("new")]);
}
