use carton_bridge::load::{prepare_load, LoadError, LoadOptions};

fn options(path: &str, device: &str) -> LoadOptions {
    LoadOptions {
        path: path.to_string(),
        override_runner_name: None,
        override_required_framework_version: None,
        visible_device: device.to_string(),
    }
}

#[test]
fn malformed_device_is_rejected() {
    match prepare_load(options("x", "not-a-device")) {
        Err(LoadError::InvalidDevice { text }) => assert_eq!(text, "not-a-device"),
        Ok(_) => panic!("expected a device error"),
    }
}

#[test]
fn empty_device_selects_the_default() {
    let req = prepare_load(options("model.carton", "")).unwrap();
    assert_eq!(req.path, "model.carton");
}

#[test]
fn overrides_are_passed_on() {
    let mut opts = options("m", "cpu");
    opts.override_runner_name = Some("torch".to_string());
    opts.override_required_framework_version = Some("=2.0.0".to_string());
    let req = prepare_load(opts).unwrap();
    assert_eq!(req.override_runner_name, Some("torch".to_string()));
    assert_eq!(req.override_required_framework_version, Some("=2.0.0".to_string()));
}

#[test]
fn device_texts_the_engine_accepts() {
    for text in ["cpu", "CPU", "cPu", "0", "+3", "4294967295", "GPU-1234", "MIG-GPU-ab"] {
        assert!(prepare_load(options("m", text)).is_ok(), "{text}");
    }
}

#[test]
fn device_texts_the_engine_refuses() {
    for text in ["-1", "+", "4294967296", "gpu", "cpux", "GPU", "MIG-GPU", " cpu"] {
        assert!(prepare_load(options("m", text)).is_err(), "{text}");
    }
}
