//! Tests of the seL4 build-planning support.

use elf_preload::sel4::{Arch, BuildDirs, CMakeListsTemplate, CMakeTarget, Platform, Profile};

#[test]
fn library_always_builds() {
    assert!(CMakeTarget::Library.should_build(Arch::Ia32, Profile::Debug));
    assert!(CMakeTarget::Library.should_build(Arch::Aarch64, Profile::Release));
}

#[test]
fn pc99_kernel_builds_only_on_x86() {
    let target = CMakeTarget::Kernel(Platform::Pc99);
    assert!(target.should_build(Arch::Ia32, Profile::Debug));
    assert!(target.should_build(Arch::X86_64, Profile::Debug));
    assert!(!target.should_build(Arch::Aarch32, Profile::Debug));
    assert!(!target.should_build(Arch::Aarch64, Profile::Debug));
}

#[test]
fn beagleboard_kernels_build_only_in_release() {
    let omap3 = CMakeTarget::Kernel(Platform::Omap3);
    let am335x = CMakeTarget::Kernel(Platform::Am335x);
    assert!(omap3.should_build(Arch::Aarch32, Profile::Release));
    assert!(!omap3.should_build(Arch::Aarch32, Profile::Debug));
    assert!(am335x.should_build(Arch::Aarch32, Profile::Release));
    assert!(!am335x.should_build(Arch::X86_64, Profile::Release));
}

#[test]
fn hikey_kernel_builds_on_both_arm_widths() {
    let target = CMakeTarget::Kernel(Platform::Hikey);
    assert!(target.should_build(Arch::Aarch32, Profile::Debug));
    assert!(target.should_build(Arch::Aarch64, Profile::Debug));
    assert!(!target.should_build(Arch::Ia32, Profile::Debug));
}

#[test]
fn plat_include_dir_names_follow_the_platform_family() {
    assert_eq!(Platform::Pc99.plat_include_dir_name(), "pc99");
    assert_eq!(Platform::Sabre.plat_include_dir_name(), "imx6");
    assert_eq!(Platform::Wandq.plat_include_dir_name(), "imx6");
    assert_eq!(Platform::Exynos5250.plat_include_dir_name(), "exynos5");
    assert_eq!(Platform::Ultra96.plat_include_dir_name(), "zynqmp");
    assert_eq!(Platform::Hikey.plat_include_dir_name(), "hikey");
}

#[test]
fn kernel_arm_platform_is_absent_only_for_pc99() {
    assert_eq!(Platform::Pc99.kernel_arm_platform(), None);
    assert_eq!(Platform::Sabre.kernel_arm_platform(), Some("sabre"));
    assert_eq!(Platform::Imx7Sabre.kernel_arm_platform(), Some("imx7sabre"));
}

#[test]
fn arch_parses_the_supported_names() {
    assert_eq!(Arch::new("x86"), Ok(Arch::Ia32));
    assert_eq!(Arch::new("x86_64"), Ok(Arch::X86_64));
    assert_eq!(Arch::new("arm"), Ok(Arch::Aarch32));
    assert_eq!(Arch::new("aarch64"), Ok(Arch::Aarch64));
}

#[test]
fn arch_rejects_an_unsupported_name_with_a_message() {
    assert_eq!(
        Arch::new("riscv"),
        Err("Unsupported architecture: riscv".to_string())
    );
}

#[test]
fn profile_parses_the_recognized_names() {
    assert_eq!(Profile::new("release"), Ok(Profile::Release));
    assert_eq!(Profile::new("debug"), Ok(Profile::Debug));
    assert_eq!(
        Profile::new("bench"),
        Err("Unrecognized profile: bench".to_string())
    );
}

#[test]
fn cmake_define_names_follow_the_arch() {
    assert_eq!(Arch::Ia32.cmake_define_name(), "IA32");
    assert_eq!(Arch::X86_64.cmake_define_name(), "X86_64");
    assert_eq!(Arch::Aarch32.cmake_define_name(), "AARCH32");
    assert_eq!(Arch::Aarch64.cmake_define_name(), "AARCH64");
}

#[test]
fn artifact_names_follow_the_target() {
    assert_eq!(CMakeTarget::Library.artifact_name(), "libsel4.a");
    assert_eq!(
        CMakeTarget::Kernel(Platform::Tk1).artifact_name(),
        "kernel.elf"
    );
}

#[test]
fn include_dirs_list_the_expected_directories() {
    let dirs = Arch::Ia32.include_dirs("SRC", "BLD");
    assert_eq!(dirs.len(), 10);
    assert_eq!(dirs[0], "SRC/include");
    assert_eq!(dirs[1], "BLD/include");
    assert_eq!(dirs[2], "BLD/autoconf");
    assert_eq!(dirs[3], "BLD/gen_config");
    assert_eq!(dirs[4], "SRC/arch_include/x86");
    assert_eq!(dirs[6], "SRC/sel4_arch_include/ia32");
    assert_eq!(dirs[8], "SRC/mode_include/32");
    assert_eq!(dirs[9], "SRC/sel4_plat_include/pc99");

    let arm = Arch::Aarch64.include_dirs("SRC", "BLD");
    assert_eq!(arm.len(), 10);
    assert_eq!(arm[4], "SRC/arch_include/arm");
    assert_eq!(arm[6], "SRC/sel4_arch_include/aarch64");
    assert_eq!(arm[8], "SRC/mode_include/64");
    assert_eq!(arm[9], "SRC/sel4_plat_include/tx1");
}

#[test]
fn build_dirs_name_the_expected_paths() {
    let dirs = BuildDirs::new("out", "man");
    assert_eq!(dirs.toolchain_file(), "man/seL4/gcc.cmake");
    assert_eq!(
        dirs.build_artifact_src(&CMakeTarget::Library),
        "out/build/libsel4/libsel4.a"
    );
    assert_eq!(
        dirs.build_artifact_src(&CMakeTarget::Kernel(Platform::Omap3)),
        "out/build/kernel/kernel.elf"
    );
    assert_eq!(dirs.build_artifact_dst(&CMakeTarget::Library), "out/libsel4.a");
    assert_eq!(
        dirs.build_artifact_dst(&CMakeTarget::Kernel(Platform::Omap3)),
        "out/kernel.elf"
    );
    assert_eq!(dirs.sel4_header(), "man/seL4/libsel4/include/sel4/sel4.h");
    assert_eq!(
        dirs.plat_header(Platform::Omap3),
        "man/seL4/libsel4/sel4_plat_include/omap3/sel4/plat/api/constants.h"
    );
    assert_eq!(dirs.libsel4_src(), "man/seL4/libsel4");
    assert_eq!(dirs.libsel4_build(), "out/build/libsel4");
    assert_eq!(dirs.kernel_gen_config(), "out/build/kernel/gen_config");
    assert_eq!(dirs.bindings_file(), "out/bindings.rs");
}

#[test]
fn cmake_lists_template_keeps_the_manifest_dir() {
    let template = CMakeListsTemplate::new("man");
    assert_eq!(template.manifest_dir, "man");
}

#[test]
fn kernel_settings_follow_the_profile() {
    let release = Profile::Release.kernel_settings(Arch::Ia32);
    assert_eq!(release, vec![("KernelVerificationBuild", "ON")]);

    let debug = Profile::Debug.kernel_settings(Arch::Ia32);
    assert_eq!(
        debug,
        vec![
            ("KernelVerificationBuild", "OFF"),
            ("KernelDebugBuild", "ON"),
            ("KernelPrinting", "ON"),
            ("HardwareDebugAPI", "ON"),
        ]
    );

    let debug_arm64 = Profile::Debug.kernel_settings(Arch::Aarch64);
    assert_eq!(debug_arm64.len(), 3);
}

#[test]
fn bindgen_extra_arg_is_present_only_in_debug() {
    assert_eq!(Profile::Release.bindgen_extra_arg(), None);
    assert_eq!(
        Profile::Debug.bindgen_extra_arg(),
        Some("-DCONFIG_HARDWARE_DEBUG_API")
    );
}
