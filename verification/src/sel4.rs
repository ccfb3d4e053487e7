//! Build-planning support for the seL4 microkernel: which CMake target to
//! build for which platform and architecture, and where the build's inputs
//! and artifacts live.
//!
//! Everything here is pure decision logic on plain values.  Running the
//! native build, generating bindings, and reading the build environment are
//! the caller's business: the caller hands in the architecture, profile,
//! and directory strings, and receives names, flags, and paths back.

use vstd::prelude::*;
use vstd::string::StringExecFns;

verus! {

/// The CMake build target to build.
#[derive(Debug, Clone, Copy, PartialEq, Eq, Structural)]
pub enum CMakeTarget {
    /// Build "libsel4.a".
    Library,
    /// Build "kernel.elf".
    Kernel(Platform),
}

/// The seL4 platform to build.
#[derive(Debug, Clone, Copy, PartialEq, Eq, Structural)]
pub enum Platform {
    /// The ia32 and x86_64 PC 99 platform.
    Pc99,
    /// The Sabre platform.
    Sabre,
    /// The Omap3 platform (BeagleBoard).
    Omap3,
    /// The Am335x platform (BeagleBone Black).
    Am335x,
    /// The Exynos4 platform.
    Exynos4,
    /// The Exynos5410 platform.
    Exynos5410,
    /// The Exynos5422 platform.
    Exynos5422,
    /// The Exynos5250 platform.
    Exynos5250,
    /// The Apq8064 platform.
    Apq8064,
    /// The Wandq platform.
    Wandq,
    /// The Imx7Sabre platform.
    Imx7Sabre,
    /// The Zynq7000 platform.
    Zynq7000,
    /// The Zynqmp platform.
    Zynqmp,
    /// The Ultra96 platform.
    Ultra96,
    /// The Tk1 platform.
    Tk1,
    /// The Hikey platform.
    Hikey,
}

/// The target architecture of a build.
#[derive(Debug, Clone, Copy, PartialEq, Eq, Structural)]
pub enum Arch {
    /// 32-bit x86.
    Ia32,
    /// 64-bit x86.
    X86_64,
    /// 32-bit ARM.
    Aarch32,
    /// 64-bit ARM.
    Aarch64,
}

/// The build profile of a build.
#[derive(Debug, Clone, Copy, PartialEq, Eq, Structural)]
pub enum Profile {
    /// A release build.
    Release,
    /// A debug build.
    Debug,
}

/// Relies on `str`'s `PartialEq`: two string slices are equal exactly when
/// they hold the same characters.
#[verifier::external_body]
fn str_eq(a: &str, b: &str) -> (r: bool)
    ensures
        r == (a@ == b@),
{
    a == b
}

/// Append `rel` to `base` as one more path component.
fn path_join(base: &str, rel: &str) -> (r: String)
    ensures
        r@ == base@ + "/"@ + rel@,
{
    let mut s = String::from_str(base);
    s.append("/");
    s.append(rel);
    s
}

impl Platform {
    /// The name of this platform's include directory.
    pub open spec fn spec_plat_include_dir_name(self) -> Seq<char> {
        match self {
            Platform::Pc99 => "pc99"@,
            Platform::Wandq => "imx6"@,
            Platform::Sabre => "imx6"@,
            Platform::Omap3 => "omap3"@,
            Platform::Am335x => "am335x"@,
            Platform::Exynos5410 => "exynos5"@,
            Platform::Exynos5422 => "exynos5"@,
            Platform::Exynos5250 => "exynos5"@,
            Platform::Ultra96 => "zynqmp"@,
            Platform::Zynqmp => "zynqmp"@,
            Platform::Exynos4 => "exynos4"@,
            Platform::Imx7Sabre => "imx7"@,
            Platform::Apq8064 => "apq8064"@,
            Platform::Zynq7000 => "zynq7000"@,
            Platform::Tk1 => "tk1"@,
            Platform::Hikey => "hikey"@,
        }
    }

    /// The name of this platform's include directory.
    pub fn plat_include_dir_name(&self) -> (r: &'static str)
        ensures
            r@ == self.spec_plat_include_dir_name(),
    {
        match self {
            Platform::Pc99 => "pc99",
            Platform::Wandq => "imx6",
            Platform::Sabre => "imx6",
            Platform::Omap3 => "omap3",
            Platform::Am335x => "am335x",
            Platform::Exynos5410 => "exynos5",
            Platform::Exynos5422 => "exynos5",
            Platform::Exynos5250 => "exynos5",
            Platform::Ultra96 => "zynqmp",
            Platform::Zynqmp => "zynqmp",
            Platform::Exynos4 => "exynos4",
            Platform::Imx7Sabre => "imx7",
            Platform::Apq8064 => "apq8064",
            Platform::Zynq7000 => "zynq7000",
            Platform::Tk1 => "tk1",
            Platform::Hikey => "hikey",
        }
    }

    /// The value of the kernel's ARM-platform setting for this platform, or
    /// `None` where the setting is not passed.
    pub open spec fn spec_kernel_arm_platform(self) -> Option<Seq<char>> {
        match self {
            Platform::Pc99 => None,
            Platform::Sabre => Some("sabre"@),
            Platform::Omap3 => Some("omap3"@),
            Platform::Am335x => Some("am335x"@),
            Platform::Exynos4 => Some("exynos4"@),
            Platform::Exynos5410 => Some("exynos5410"@),
            Platform::Exynos5422 => Some("exynos5422"@),
            Platform::Exynos5250 => Some("exynos5250"@),
            Platform::Apq8064 => Some("apq8064"@),
            Platform::Wandq => Some("wandq"@),
            Platform::Imx7Sabre => Some("imx7sabre"@),
            Platform::Zynq7000 => Some("zynq7000"@),
            Platform::Zynqmp => Some("zynqmp"@),
            Platform::Ultra96 => Some("ultra96"@),
            Platform::Tk1 => Some("tk1"@),
            Platform::Hikey => Some("hikey"@),
        }
    }

    /// The value of the kernel's ARM-platform setting for this platform, or
    /// `None` where the setting is not passed.
    pub fn kernel_arm_platform(&self) -> (r: Option<&'static str>)
        ensures
            match r {
                Some(name) => self.spec_kernel_arm_platform() == Some(name@),
                None => self.spec_kernel_arm_platform() is None,
            },
    {
        match self {
            Platform::Pc99 => None,
            Platform::Sabre => Some("sabre"),
            Platform::Omap3 => Some("omap3"),
            Platform::Am335x => Some("am335x"),
            Platform::Exynos4 => Some("exynos4"),
            Platform::Exynos5410 => Some("exynos5410"),
            Platform::Exynos5422 => Some("exynos5422"),
            Platform::Exynos5250 => Some("exynos5250"),
            Platform::Apq8064 => Some("apq8064"),
            Platform::Wandq => Some("wandq"),
            Platform::Imx7Sabre => Some("imx7sabre"),
            Platform::Zynq7000 => Some("zynq7000"),
            Platform::Zynqmp => Some("zynqmp"),
            Platform::Ultra96 => Some("ultra96"),
            Platform::Tk1 => Some("tk1"),
            Platform::Hikey => Some("hikey"),
        }
    }
}

/// Whether a target is built at all for the given architecture and profile.
pub open spec fn spec_should_build(t: CMakeTarget, arch: Arch, profile: Profile) -> bool {
    match t {
        CMakeTarget::Library => true,
        CMakeTarget::Kernel(platform) => match platform {
            Platform::Pc99 => arch == Arch::Ia32 || arch == Arch::X86_64,
            Platform::Sabre | Platform::Exynos4 | Platform::Exynos5410 | Platform::Exynos5422
                | Platform::Exynos5250 | Platform::Apq8064 | Platform::Wandq
                | Platform::Imx7Sabre | Platform::Zynq7000 | Platform::Zynqmp | Platform::Ultra96
                | Platform::Tk1 => arch == Arch::Aarch32,
            Platform::Omap3 | Platform::Am335x => arch == Arch::Aarch32 && profile
                == Profile::Release,
            Platform::Hikey => arch == Arch::Aarch32 || arch == Arch::Aarch64,
        },
    }
}

impl CMakeTarget {
    /// Whether this target is built at all for the given architecture and
    /// profile: the library always, a kernel only on the architectures its
    /// platform supports, and the BeagleBoard kernels only in release
    /// builds.
    pub fn should_build(&self, arch: Arch, profile: Profile) -> (r: bool)
        ensures
            r == spec_should_build(*self, arch, profile),
    {
        match self {
            CMakeTarget::Library => true,
            CMakeTarget::Kernel(platform) => match platform {
                Platform::Pc99 => arch == Arch::Ia32 || arch == Arch::X86_64,
                Platform::Sabre | Platform::Exynos4 | Platform::Exynos5410
                    | Platform::Exynos5422 | Platform::Exynos5250 | Platform::Apq8064
                    | Platform::Wandq | Platform::Imx7Sabre | Platform::Zynq7000
                    | Platform::Zynqmp | Platform::Ultra96 | Platform::Tk1 => arch
                    == Arch::Aarch32,
                Platform::Omap3 | Platform::Am335x => arch == Arch::Aarch32 && profile
                    == Profile::Release,
                Platform::Hikey => arch == Arch::Aarch32 || arch == Arch::Aarch64,
            },
        }
    }

    /// The name of the file that the build of this target produces.
    pub fn artifact_name(&self) -> (r: &'static str)
        ensures
            r@ == match *self {
                CMakeTarget::Library => "libsel4.a"@,
                CMakeTarget::Kernel(_) => "kernel.elf"@,
            },
    {
        match self {
            CMakeTarget::Library => "libsel4.a",
            CMakeTarget::Kernel(_) => "kernel.elf",
        }
    }
}

impl Arch {
    /// The architecture named by a target triple's architecture field, or
    /// the message with which an unsupported name is rejected.
    pub open spec fn spec_arch_of(s: Seq<char>) -> Option<Arch> {
        if s == "x86"@ {
            Some(Arch::Ia32)
        } else if s == "x86_64"@ {
            Some(Arch::X86_64)
        } else if s == "arm"@ {
            Some(Arch::Aarch32)
        } else if s == "aarch64"@ {
            Some(Arch::Aarch64)
        } else {
            None
        }
    }

    /// Read an architecture from a target triple's architecture field.
    pub fn new(arch: &str) -> (r: Result<Arch, String>)
        ensures
            match r {
                Ok(a) => Self::spec_arch_of(arch@) == Some(a),
                Err(m) => Self::spec_arch_of(arch@) is None && m@ == "Unsupported architecture: "@
                    + arch@,
            },
    {
        if str_eq(arch, "x86") {
            Ok(Arch::Ia32)
        } else if str_eq(arch, "x86_64") {
            Ok(Arch::X86_64)
        } else if str_eq(arch, "arm") {
            Ok(Arch::Aarch32)
        } else if str_eq(arch, "aarch64") {
            Ok(Arch::Aarch64)
        } else {
            let mut m = String::from_str("Unsupported architecture: ");
            m.append(arch);
            Err(m)
        }
    }

    /// The name under which this architecture is enabled in the kernel's
    /// build configuration.
    pub fn cmake_define_name(&self) -> (r: &'static str)
        ensures
            r@ == match *self {
                Arch::Ia32 => "IA32"@,
                Arch::X86_64 => "X86_64"@,
                Arch::Aarch32 => "AARCH32"@,
                Arch::Aarch64 => "AARCH64"@,
            },
    {
        match self {
            Arch::Ia32 => "IA32",
            Arch::X86_64 => "X86_64",
            Arch::Aarch32 => "AARCH32",
            Arch::Aarch64 => "AARCH64",
        }
    }

    /// The include directories that generating bindings needs, under the
    /// library source directory `src` and the build directory `build`.
    pub open spec fn spec_include_dirs(self, src: Seq<char>, build: Seq<char>) -> Seq<Seq<char>> {
        let common = seq![
            src + "/"@ + "include"@,
            build + "/"@ + "include"@,
            build + "/"@ + "autoconf"@,
            build + "/"@ + "gen_config"@,
        ];
        let arch_dirs = match self {
            Arch::Ia32 | Arch::X86_64 => seq![
                src + "/"@ + "arch_include/x86"@,
                build + "/"@ + "arch_include/x86"@,
            ],
            Arch::Aarch32 | Arch::Aarch64 => seq![
                src + "/"@ + "arch_include/arm"@,
                build + "/"@ + "arch_include/arm"@,
            ],
        };
        let sel4_arch_dirs = match self {
            Arch::Ia32 => seq![
                src + "/"@ + "sel4_arch_include/ia32"@,
                build + "/"@ + "sel4_arch_include/ia32"@,
            ],
            Arch::X86_64 => seq![
                src + "/"@ + "sel4_arch_include/x86_64"@,
                build + "/"@ + "sel4_arch_include/x86_64"@,
            ],
            Arch::Aarch32 => seq![
                src + "/"@ + "sel4_arch_include/aarch32"@,
                build + "/"@ + "sel4_arch_include/aarch32"@,
            ],
            Arch::Aarch64 => seq![
                src + "/"@ + "sel4_arch_include/aarch64"@,
                build + "/"@ + "sel4_arch_include/aarch64"@,
            ],
        };
        let mode_dirs = match self {
            Arch::Ia32 | Arch::Aarch32 => seq![src + "/"@ + "mode_include/32"@],
            Arch::X86_64 | Arch::Aarch64 => seq![src + "/"@ + "mode_include/64"@],
        };
        let plat_dirs = match self {
            Arch::Ia32 | Arch::X86_64 => seq![src + "/"@ + "sel4_plat_include/pc99"@],
            Arch::Aarch32 => seq![src + "/"@ + "sel4_plat_include/imx6"@],
            Arch::Aarch64 => seq![src + "/"@ + "sel4_plat_include/tx1"@],
        };
        common + arch_dirs + sel4_arch_dirs + mode_dirs + plat_dirs
    }

    /// The include directories that generating bindings needs, under the
    /// library source directory `src` and the build directory `build`.
    pub fn include_dirs(&self, src: &str, build: &str) -> (r: Vec<String>)
        ensures
            r.deep_view() == self.spec_include_dirs(src@, build@),
    {
        let mut dirs: Vec<String> = Vec::new();
        dirs.push(path_join(src, "include"));
        dirs.push(path_join(build, "include"));
        dirs.push(path_join(build, "autoconf"));
        dirs.push(path_join(build, "gen_config"));
        match self {
            Arch::Ia32 | Arch::X86_64 => {
                dirs.push(path_join(src, "arch_include/x86"));
                dirs.push(path_join(build, "arch_include/x86"));
            },
            Arch::Aarch32 | Arch::Aarch64 => {
                dirs.push(path_join(src, "arch_include/arm"));
                dirs.push(path_join(build, "arch_include/arm"));
            },
        }
        match self {
            Arch::Ia32 => {
                dirs.push(path_join(src, "sel4_arch_include/ia32"));
                dirs.push(path_join(build, "sel4_arch_include/ia32"));
            },
            Arch::X86_64 => {
                dirs.push(path_join(src, "sel4_arch_include/x86_64"));
                dirs.push(path_join(build, "sel4_arch_include/x86_64"));
            },
            Arch::Aarch32 => {
                dirs.push(path_join(src, "sel4_arch_include/aarch32"));
                dirs.push(path_join(build, "sel4_arch_include/aarch32"));
            },
            Arch::Aarch64 => {
                dirs.push(path_join(src, "sel4_arch_include/aarch64"));
                dirs.push(path_join(build, "sel4_arch_include/aarch64"));
            },
        }
        match self {
            Arch::Ia32 | Arch::Aarch32 => dirs.push(path_join(src, "mode_include/32")),
            Arch::X86_64 | Arch::Aarch64 => dirs.push(path_join(src, "mode_include/64")),
        }
        match self {
            Arch::Ia32 | Arch::X86_64 => dirs.push(path_join(src, "sel4_plat_include/pc99")),
            Arch::Aarch32 => dirs.push(path_join(src, "sel4_plat_include/imx6")),
            Arch::Aarch64 => dirs.push(path_join(src, "sel4_plat_include/tx1")),
        }
        assert(dirs.deep_view() =~~= self.spec_include_dirs(src@, build@));
        dirs
    }
}

impl Profile {
    /// The profile named by a build-profile string.
    pub open spec fn spec_profile_of(s: Seq<char>) -> Option<Profile> {
        if s == "release"@ {
            Some(Profile::Release)
        } else if s == "debug"@ {
            Some(Profile::Debug)
        } else {
            None
        }
    }

    /// Read a profile from a build-profile string.
    pub fn new(profile: &str) -> (r: Result<Profile, String>)
        ensures
            match r {
                Ok(p) => Self::spec_profile_of(profile@) == Some(p),
                Err(m) => Self::spec_profile_of(profile@) is None && m@
                    == "Unrecognized profile: "@ + profile@,
            },
    {
        if str_eq(profile, "release") {
            Ok(Profile::Release)
        } else if str_eq(profile, "debug") {
            Ok(Profile::Debug)
        } else {
            let mut m = String::from_str("Unrecognized profile: ");
            m.append(profile);
            Err(m)
        }
    }
}

impl Profile {
    /// The kernel build settings that this profile turns on, paired with
    /// their values; a debug build additionally exposes the hardware debug
    /// interface except on 64-bit ARM.
    pub fn kernel_settings(&self, arch: Arch) -> (r: Vec<(&'static str, &'static str)>)
        ensures
            r.deep_view() == match *self {
                Profile::Release => seq![("KernelVerificationBuild"@, "ON"@)],
                Profile::Debug => {
                    let base = seq![
                        ("KernelVerificationBuild"@, "OFF"@),
                        ("KernelDebugBuild"@, "ON"@),
                        ("KernelPrinting"@, "ON"@),
                    ];
                    if arch == Arch::Aarch64 {
                        base
                    } else {
                        base.push(("HardwareDebugAPI"@, "ON"@))
                    }
                },
            },
    {
        let mut settings: Vec<(&'static str, &'static str)> = Vec::new();
        match self {
            Profile::Release => {
                settings.push(("KernelVerificationBuild", "ON"));
            },
            Profile::Debug => {
                settings.push(("KernelVerificationBuild", "OFF"));
                settings.push(("KernelDebugBuild", "ON"));
                settings.push(("KernelPrinting", "ON"));
                if arch != Arch::Aarch64 {
                    settings.push(("HardwareDebugAPI", "ON"));
                }
            },
        }
        proof {
            assert(settings.deep_view() =~~= match *self {
                Profile::Release => seq![("KernelVerificationBuild"@, "ON"@)],
                Profile::Debug => {
                    let base = seq![
                        ("KernelVerificationBuild"@, "OFF"@),
                        ("KernelDebugBuild"@, "ON"@),
                        ("KernelPrinting"@, "ON"@),
                    ];
                    if arch == Arch::Aarch64 {
                        base
                    } else {
                        base.push(("HardwareDebugAPI"@, "ON"@))
                    }
                },
            });
        }
        settings
    }

    /// The extra compiler argument that generating bindings needs under
    /// this profile, if any.
    pub fn bindgen_extra_arg(&self) -> (r: Option<&'static str>)
        ensures
            match r {
                Some(a) => *self == Profile::Debug && a@ == "-DCONFIG_HARDWARE_DEBUG_API"@,
                None => *self == Profile::Release,
            },
    {
        match self {
            Profile::Release => None,
            Profile::Debug => Some("-DCONFIG_HARDWARE_DEBUG_API"),
        }
    }
}

/// The directories of a build: where artifacts are put and where the
/// sources live.
#[derive(Debug)]
pub struct BuildDirs {
    /// The directory that receives the build's outputs.
    pub out_dir: String,
    /// The directory that holds the building crate's sources.
    pub manifest_dir: String,
}

impl BuildDirs {
    /// Remember the output and manifest directories of a build.
    pub fn new(out_dir: &str, manifest_dir: &str) -> (r: BuildDirs)
        ensures
            r.out_dir@ == out_dir@,
            r.manifest_dir@ == manifest_dir@,
    {
        BuildDirs { out_dir: String::from_str(out_dir), manifest_dir: String::from_str(
            manifest_dir,
        ) }
    }

    /// The path of the toolchain file handed to the kernel's build.
    pub fn toolchain_file(&self) -> (r: String)
        ensures
            r@ == self.manifest_dir@ + "/"@ + "seL4/gcc.cmake"@,
    {
        path_join(self.manifest_dir.as_str(), "seL4/gcc.cmake")
    }

    /// The path at which the build leaves the target's artifact.
    pub fn build_artifact_src(&self, target: &CMakeTarget) -> (r: String)
        ensures
            r@ == self.out_dir@ + "/"@ + match *target {
                CMakeTarget::Library => "build/libsel4/libsel4.a"@,
                CMakeTarget::Kernel(_) => "build/kernel/kernel.elf"@,
            },
    {
        match target {
            CMakeTarget::Library => path_join(self.out_dir.as_str(), "build/libsel4/libsel4.a"),
            CMakeTarget::Kernel(_) => path_join(self.out_dir.as_str(), "build/kernel/kernel.elf"),
        }
    }

    /// The path at which the target's artifact is expected afterward.
    pub fn build_artifact_dst(&self, target: &CMakeTarget) -> (r: String)
        ensures
            r@ == self.out_dir@ + "/"@ + match *target {
                CMakeTarget::Library => "libsel4.a"@,
                CMakeTarget::Kernel(_) => "kernel.elf"@,
            },
    {
        match target {
            CMakeTarget::Library => path_join(self.out_dir.as_str(), "libsel4.a"),
            CMakeTarget::Kernel(_) => path_join(self.out_dir.as_str(), "kernel.elf"),
        }
    }

    /// The path of the library's principal header.
    pub fn sel4_header(&self) -> (r: String)
        ensures
            r@ == self.manifest_dir@ + "/"@ + "seL4/libsel4/include/sel4/sel4.h"@,
    {
        path_join(self.manifest_dir.as_str(), "seL4/libsel4/include/sel4/sel4.h")
    }

    /// The path of the platform-specific constants header for `platform`.
    pub fn plat_header(&self, platform: Platform) -> (r: String)
        ensures
            r@ == self.manifest_dir@ + "/"@ + "seL4/libsel4/sel4_plat_include"@ + "/"@
                + platform.spec_plat_include_dir_name() + "/"@ + "sel4/plat/api/constants.h"@,
    {
        let mut plat_dir = path_join(self.manifest_dir.as_str(), "seL4/libsel4/sel4_plat_include");
        plat_dir.append("/");
        plat_dir.append(platform.plat_include_dir_name());
        plat_dir.append("/");
        plat_dir.append("sel4/plat/api/constants.h");
        plat_dir
    }

    /// The directory of the library's sources.
    pub fn libsel4_src(&self) -> (r: String)
        ensures
            r@ == self.manifest_dir@ + "/"@ + "seL4/libsel4"@,
    {
        path_join(self.manifest_dir.as_str(), "seL4/libsel4")
    }

    /// The directory in which the library is built.
    pub fn libsel4_build(&self) -> (r: String)
        ensures
            r@ == self.out_dir@ + "/"@ + "build/libsel4"@,
    {
        path_join(self.out_dir.as_str(), "build/libsel4")
    }

    /// The directory of the kernel's generated configuration.
    pub fn kernel_gen_config(&self) -> (r: String)
        ensures
            r@ == self.out_dir@ + "/"@ + "build/kernel/gen_config"@,
    {
        path_join(self.out_dir.as_str(), "build/kernel/gen_config")
    }

    /// The path of the generated bindings file.
    pub fn bindings_file(&self) -> (r: String)
        ensures
            r@ == self.out_dir@ + "/"@ + "bindings.rs"@,
    {
        path_join(self.out_dir.as_str(), "bindings.rs")
    }
}

/// The values interpolated into the root build file that drives the
/// kernel's native build.
#[derive(Debug)]
pub struct CMakeListsTemplate {
    /// The directory that holds the building crate's sources.
    pub manifest_dir: String,
}

impl CMakeListsTemplate {
    /// A template over the given manifest directory.
    pub fn new(manifest_dir: &str) -> (r: CMakeListsTemplate)
        ensures
            r.manifest_dir@ == manifest_dir@,
    {
        CMakeListsTemplate { manifest_dir: String::from_str(manifest_dir) }
    }
}

} // verus!
