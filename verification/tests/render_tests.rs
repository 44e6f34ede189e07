use zkcli::node::NodeStat;
use zkcli::render::{display_name, format_node_from_stat, indent};

fn stat(num_children: u32, data_length: u32, ephemeral: bool) -> NodeStat {
    NodeStat { num_children, data_length, ephemeral }
}

#[test]
fn leaf_name_carries_no_marker() {
    assert_eq!(display_name("leaf", &stat(0, 0, false)), "leaf");
}

#[test]
fn parent_name_carries_directory_marker() {
    assert_eq!(display_name("dir", &stat(3, 0, false)), "dir/ ");
}

#[test]
fn root_name_never_carries_a_marker() {
    assert_eq!(display_name("/", &stat(5, 0, false)), "/");
}

#[test]
fn styling_preserves_the_display_text() {
    let styled = format_node_from_stat("dir", &stat(2, 9, true));
    assert_eq!(styled.input, "dir/ ");

    let plain = format_node_from_stat("leaf", &stat(0, 0, false));
    assert_eq!(plain.input, "leaf");
}

#[test]
fn data_switches_color() {
    let with_data = format_node_from_stat("n", &stat(0, 4, false));
    let without = format_node_from_stat("n", &stat(0, 0, false));
    assert_eq!(with_data.fgcolor, Some(colored::Color::Green));
    assert_eq!(without.fgcolor, Some(colored::Color::Blue));
}

#[test]
fn indent_is_two_spaces_per_level() {
    assert_eq!(indent(0), "");
    assert_eq!(indent(1), "  ");
    assert_eq!(indent(3), "      ");
}
