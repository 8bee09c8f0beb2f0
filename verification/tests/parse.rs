use tune::parse::split_balanced;

#[test]
fn split_balanced_outside_braces() {
    assert_eq!(split_balanced("1:2:3", ':'), ["1", "2", "3"]);
    assert_eq!(split_balanced("{a:b}:c", ':'), ["{a:b}", "c"]);
    assert_eq!(split_balanced("{a:{b:c}}:d:{e}", ':'), ["{a:{b:c}}", "d", "{e}"]);
    assert_eq!(split_balanced("a::b", ':'), ["a", "", "b"]);
    assert_eq!(split_balanced("", ':'), [""]);
    assert_eq!(split_balanced(":", ':'), ["", ""]);
    assert_eq!(split_balanced("}a:b", ':'), ["}a:b"]);
    assert_eq!(split_balanced("{a}b", '{'), ["{a}b"]);
}
