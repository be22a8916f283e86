use jtop::hardware::jetson::{
    board_info, jetpack_version, l4t_to_jetpack, parse_cuda_version_json, parse_cuda_version_txt,
    parse_dpkg_l4t_version, parse_kernel_version, parse_model, parse_nv_tegra_release,
    BoardInfo, JetsonModel,
};

#[test]
fn models_by_keyword() {
    assert_eq!(parse_model("NVIDIA Jetson AGX Orin Developer Kit"), JetsonModel::AGXOrin);
    assert_eq!(parse_model("p3737-agx-orin"), JetsonModel::AGXOrin);
    assert_eq!(parse_model("NVIDIA Jetson Orin NX Engineering Reference"), JetsonModel::OrinNX);
    assert_eq!(parse_model("NVIDIA Jetson Orin Nano Developer Kit"), JetsonModel::OrinNano);
    assert_eq!(parse_model("NVIDIA Jetson Xavier NX Developer Kit"), JetsonModel::XavierNX);
    assert_eq!(parse_model("Jetson-AGX Xavier"), JetsonModel::Xavier);
    assert_eq!(parse_model("NVIDIA Jetson Nano Developer Kit"), JetsonModel::Nano);
    assert_eq!(parse_model("quill TX2"), JetsonModel::TX2);
    assert_eq!(parse_model("Raspberry Pi"), JetsonModel::Other("Raspberry Pi".to_string()));
    assert_eq!(parse_model(""), JetsonModel::Other(String::new()));
}

#[test]
fn model_texts() {
    assert_eq!(JetsonModel::Unknown.to_text(), "Unknown");
    assert_eq!(JetsonModel::AGXOrin.to_text(), "AGX Orin");
    assert_eq!(JetsonModel::XavierNX.to_text(), "Xavier NX");
    assert_eq!(JetsonModel::Other("Board X".to_string()).to_text(), "Board X");
    for m in [JetsonModel::AGXOrin, JetsonModel::OrinNX, JetsonModel::OrinNano, JetsonModel::Xavier, JetsonModel::XavierNX, JetsonModel::Nano, JetsonModel::TX2] {
        assert_eq!(parse_model(&m.to_text()), m);
    }
}

#[test]
fn tegra_release_file() {
    let text = "# R36 (release), REVISION: 4.3, GCID: 38968081, BOARD: generic, EABI: aarch64, DATE: Wed Jan  8 01:49:37 UTC 2025\n# KERNEL_VARIANT: oot\nTARGET_USERSPACE_LIB_DIR=nvidia\n";
    assert_eq!(parse_nv_tegra_release(text), Some("36.4.3".to_string()));
    assert_eq!(parse_nv_tegra_release("# R35 (release)\n"), None);
    assert_eq!(parse_nv_tegra_release("REVISION: 1.0\n"), None);
    assert_eq!(parse_nv_tegra_release(""), None);
}

#[test]
fn dpkg_l4t_output() {
    assert_eq!(parse_dpkg_l4t_version("nvidia-l4t-core\t36.4.3-20250107174145\n"), Some("36.4.3".to_string()));
    assert_eq!(parse_dpkg_l4t_version("nvidia-l4t-core\n"), None);
    assert_eq!(parse_dpkg_l4t_version("pkg -x\n"), None);
    assert_eq!(parse_dpkg_l4t_version(""), None);
}

#[test]
fn jetpack_from_l4t() {
    assert_eq!(l4t_to_jetpack("36.4.3"), "6.1");
    assert_eq!(l4t_to_jetpack("36.3"), "6.0");
    assert_eq!(l4t_to_jetpack("36.2"), "6.0");
    assert_eq!(l4t_to_jetpack("36"), "6.0");
    assert_eq!(l4t_to_jetpack("36.x"), "6.0");
    assert_eq!(l4t_to_jetpack("35.5.0"), "5.x");
    assert_eq!(l4t_to_jetpack("32.7.1"), "unknown");
    assert_eq!(l4t_to_jetpack(""), "unknown");
    assert_eq!(jetpack_version(""), "unknown");
    assert_eq!(jetpack_version("36.4.0"), "6.1");
}

#[test]
fn cuda_versions() {
    let json = "{\n   \"cuda\" : {\n      \"name\" : \"CUDA SDK\",\n      \"version\" : \"12.6.68\"\n   },\n   \"cuda_cudart\" : {\n      \"version\" : \"12.6.68\"\n   }\n}\n";
    assert_eq!(parse_cuda_version_json(json), Some("12.6.68".to_string()));
    let top = "{ \"version\": \"11.4.1\" }";
    assert_eq!(parse_cuda_version_json(top), Some("11.4.1".to_string()));
    assert_eq!(parse_cuda_version_json("{ \"cuda\": {} }"), None);
    assert_eq!(parse_cuda_version_json("{ \"version\": 12 }"), None);
    assert_eq!(parse_cuda_version_txt("CUDA Version 10.2.300\n"), Some("10.2.300".to_string()));
    assert_eq!(parse_cuda_version_txt("CUDA Version ten\n"), None);
    assert_eq!(parse_cuda_version_txt(""), None);
}

#[test]
fn kernel_version_word() {
    assert_eq!(parse_kernel_version("Linux version 5.15.148-tegra (buildbrain@mobile) #1 SMP\n"), "5.15.148-tegra");
    assert_eq!(parse_kernel_version("Linux version"), "");
}

#[test]
fn board_info_assembly() {
    let b = board_info(
        Some("NVIDIA Jetson AGX Orin Developer Kit\0"),
        Some("\u{0}1421922012345\u{0}"),
        "36.4.3".to_string(),
        "12.6.68".to_string(),
        "5.15.148-tegra".to_string(),
        Some("jetson\n"),
        4242,
    );
    assert_eq!(b.model, "NVIDIA Jetson AGX Orin Developer Kit");
    assert_eq!(b.board_type, JetsonModel::AGXOrin);
    assert_eq!(b.serial, "1421922012345");
    assert_eq!(b.jetpack_version, "6.1");
    assert_eq!(b.hostname, "jetson");
    assert_eq!(b.uptime, 4242);
    let empty = board_info(None, None, String::new(), String::new(), String::new(), None, 0);
    assert_eq!(empty.model, "");
    assert_eq!(empty.board_type, JetsonModel::Other(String::new()));
    assert_eq!(empty.jetpack_version, "unknown");
    assert_eq!(empty.hostname, "");
}

#[test]
fn board_display_falls_back_for_empty_texts() {
    let empty = jtop::ui::board_display(&BoardInfo::default());
    assert_eq!(empty.model, "Unknown");
    assert_eq!(empty.serial, "N/A");
    assert_eq!(empty.hostname, "N/A");
    assert_eq!(empty.l4t, "N/A");
    assert_eq!(empty.jetpack, "N/A");
    assert_eq!(empty.cuda, "N/A");
    assert_eq!(empty.kernel, "N/A");
    assert_eq!(empty.uptime, "N/A");
    let mut b = BoardInfo::default();
    b.model = "Jetson".to_string();
    b.kernel_version = "5.15".to_string();
    b.uptime = 3661;
    let shown = jtop::ui::board_display(&b);
    assert_eq!(shown.model, "Jetson");
    assert_eq!(shown.kernel, "5.15");
    assert_eq!(shown.serial, "N/A");
    assert_eq!(shown.uptime, "1h 1m 1s");
}
