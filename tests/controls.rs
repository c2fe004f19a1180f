use wireframe::controls::{Controls, Key};

#[test]
fn starts_at_rest() {
    let c = Controls::new();
    assert_eq!(c, Controls { forward: 0, turn: 0 });
}

#[test]
fn arrows_set_speeds() {
    let mut c = Controls::new();
    c.press(Key::Up);
    assert_eq!(c.forward, -1);
    c.press(Key::Down);
    assert_eq!(c.forward, 1);
    c.press(Key::Left);
    assert_eq!(c.turn, 1);
    c.press(Key::Right);
    assert_eq!(c.turn, -1);
    c.press(Key::Other);
    assert_eq!(c, Controls { forward: 1, turn: -1 });
}

#[test]
fn release_clears_the_pair() {
    let mut c = Controls::new();
    c.press(Key::Up);
    c.press(Key::Left);
    c.release(Key::Down);
    assert_eq!(c, Controls { forward: 0, turn: 1 });
    c.release(Key::Other);
    assert_eq!(c, Controls { forward: 0, turn: 1 });
    c.release(Key::Right);
    assert_eq!(c, Controls { forward: 0, turn: 0 });
}
