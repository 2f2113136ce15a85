use soft_shadow::registry::{ShaderRegistry, ShadowShader};

// The registry starts empty; installation makes the program available.
#[test]
fn install_then_get() {
    let mut reg = ShaderRegistry::new();
    assert!(!reg.is_installed());
    reg.install(ShadowShader(11));
    assert!(reg.is_installed());
    assert_eq!(ShadowShader::get(&reg), ShadowShader(11));
}

// Reinstalling replaces the handle.
#[test]
fn reinstall_replaces() {
    let mut reg = ShaderRegistry::new();
    reg.install(ShadowShader(1));
    reg.install(ShadowShader(2));
    assert_eq!(ShadowShader::get(&reg), ShadowShader(2));
}
