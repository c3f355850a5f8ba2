use sluggrs::shader::{assemble_border_shader, assemble_simple_shader};

const SIMPLE_SHADER_WGSL: &str = "@vertex fn vs_main() {}\n@fragment fn fs_main() {}\n";

#[test]
fn assembled_normal_shader_is_byte_identical() {
    assert_eq!(
        assemble_simple_shader(SIMPLE_SHADER_WGSL),
        SIMPLE_SHADER_WGSL
    );
}

#[test]
fn border_shader_follows_on_a_new_line() {
    assert_eq!(
        assemble_border_shader("fn a() {}", "fn b() {}"),
        "fn a() {}\nfn b() {}"
    );
}
