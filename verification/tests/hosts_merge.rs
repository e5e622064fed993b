use switch_hosts_rs::hosts::{
    content_end, content_start, format_octal, generate_sys_hosts_content, get_sys_hosts_path,
    permission_bits, sudo_chmod_args, sudo_program, sudo_stdin_bytes,
};

const START: &str = "# --- SWITCHHOSTS_RS_CONTENT_START ---";
const END: &str = "# --- SWITCHHOSTS_RS_CONTENT_END ---";

#[test]
fn markers_match_the_managed_block_sentinels() {
    assert_eq!(content_start(), START);
    assert_eq!(content_end(), END);
}

#[test]
fn merge_replaces_only_the_managed_block() {
    let current = format!("before\n{}\nold entries\n{}\nafter", START, END);
    let merged = generate_sys_hosts_content(current.as_str(), "new");
    assert_eq!(merged, format!("before\n{}\nnew\n{}\nafter", START, END));
}

#[test]
fn merge_preserves_bytes_outside_the_block() {
    let current = format!("# keep me\n{}\nx\n{}\n# tail stays", START, END);
    let merged = generate_sys_hosts_content(current.as_str(), "1.2.3.4 host");
    assert!(merged.starts_with("# keep me\n"));
    assert!(merged.ends_with("\n# tail stays"));
    assert!(merged.contains(&format!("{}\n1.2.3.4 host\n{}", START, END)));
}

#[test]
fn merge_appends_one_block_when_markers_are_missing() {
    let merged = generate_sys_hosts_content("127.0.0.1 localhost", "new");
    assert_eq!(
        merged,
        format!("127.0.0.1 localhost\n\n{}\nnew\n{}\n", START, END)
    );
}

#[test]
fn merge_appends_when_only_one_marker_is_present() {
    let current = format!("stuff\n{}\nno end", START);
    let merged = generate_sys_hosts_content(current.as_str(), "new");
    assert_eq!(merged, format!("{}\n\n{}\nnew\n{}\n", current, START, END));
}

#[test]
fn merge_appends_when_the_end_marker_comes_first() {
    let current = format!("{}\nthen\n{}", END, START);
    let merged = generate_sys_hosts_content(current.as_str(), "new");
    assert_eq!(merged, format!("{}\n\n{}\nnew\n{}\n", current, START, END));
}

#[test]
fn merge_works_on_an_empty_hosts_file() {
    let merged = generate_sys_hosts_content("", "new");
    assert_eq!(merged, format!("\n\n{}\nnew\n{}\n", START, END));
}

#[test]
fn octal_rendering_matches_chmod_notation() {
    assert_eq!(format_octal(0), "0");
    assert_eq!(format_octal(7), "7");
    assert_eq!(format_octal(493), "755");
    assert_eq!(format_octal(420), "644");
}

#[test]
fn permission_bits_keep_the_low_nine_bits() {
    assert_eq!(permission_bits(0x81A4), 0x1A4);
    assert_eq!(format_octal(permission_bits(0x81A4)), "644");
}

#[test]
fn elevation_arguments_never_carry_the_password() {
    assert_eq!(sudo_program(), "sudo");
    let args = sudo_chmod_args("755", "/etc/hosts");
    assert_eq!(args, vec!["-S", "chmod", "755", "/etc/hosts"]);
    assert_eq!(sudo_stdin_bytes("pw"), "pw\n");
}

#[test]
fn sys_hosts_path_is_fixed_on_unix() {
    assert_eq!(get_sys_hosts_path(), "/etc/hosts");
}

#[test]
fn merge_handles_multibyte_text_around_the_block() {
    let current = format!("héllo wörld\n{}\nöld\n{}\ntail é", START, END);
    let merged = generate_sys_hosts_content(current.as_str(), "nëw");
    assert_eq!(merged, format!("héllo wörld\n{}\nnëw\n{}\ntail é", START, END));
}
