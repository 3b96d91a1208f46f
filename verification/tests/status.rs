use pykep_core::PORT_STATUS;

#[test]
fn status_is_explicit_about_the_scaffold() {
    assert!(PORT_STATUS.contains("not started"));
}
