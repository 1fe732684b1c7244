use survival_cubed::discovery::{instance_label, SERVICE_TYPE};

#[test]
fn labels_drop_the_service_suffix() {
    assert_eq!(SERVICE_TYPE, "_survival-cubed._udp.local.");
    assert_eq!(instance_label("Test World._survival-cubed._udp.local."), "Test World");
    assert_eq!(instance_label("a..._survival-cubed._udp.local."), "a");
    assert_eq!(instance_label("_survival-cubed._udp.local."), "");
}

#[test]
fn names_without_the_suffix_are_shown_whole() {
    assert_eq!(instance_label("Test World._other._udp.local."), "Test World._other._udp.local.");
    assert_eq!(instance_label("short"), "short");
    assert_eq!(instance_label(""), "");
    assert_eq!(instance_label("x._survival-cubed._udp.local"), "x._survival-cubed._udp.local");
}
