//! The software development kits that the C headers are read with.

use vstd::prelude::*;

verus! {

/// What the C headers are read with for a target.
pub struct HeaderSdk {
    /// The kit that holds the system's headers.
    pub sdk: &'static str,
    /// The target as the C compiler calls it, where it has to be told.
    pub target_arg: Option<&'static str>,
}

/// The targets that need a kit, each with its kit and what the C compiler is told.
pub open spec fn header_sdks() -> Seq<(&'static str, HeaderSdk)> {
    seq![
        (
            "aarch64-apple-ios",
            HeaderSdk { sdk: "iphoneos", target_arg: Some("--target=arm64-apple-ios") },
        ),
        (
            "aarch64-apple-ios-sim",
            HeaderSdk {
                sdk: "iphonesimulator",
                target_arg: Some("--target=arm64-apple-ios-simulator"),
            },
        ),
        (
            "x86_64-apple-ios",
            HeaderSdk {
                sdk: "iphonesimulator",
                target_arg: Some("--target=x86_64-apple-ios-simulator"),
            },
        ),
        ("aarch64-apple-darwin", HeaderSdk { sdk: "macosx", target_arg: None }),
        ("x86_64-apple-darwin", HeaderSdk { sdk: "macosx", target_arg: None }),
        (
            "aarch64-apple-tvos",
            HeaderSdk { sdk: "appletvos", target_arg: Some("--target=arm64-apple-tvos") },
        ),
        (
            "aarch64-apple-tvos-sim",
            HeaderSdk {
                sdk: "appletvsimulator",
                target_arg: Some("--target=arm64-apple-tvos-simulator"),
            },
        ),
        (
            "x86_64-apple-tvos",
            HeaderSdk {
                sdk: "appletvsimulator",
                target_arg: Some("--target=x86_64-apple-tvos-simulator"),
            },
        ),
        (
            "aarch64-apple-visionos",
            HeaderSdk { sdk: "xros", target_arg: Some("--target=arm64-apple-xros") },
        ),
        (
            "aarch64-apple-visionos-sim",
            HeaderSdk {
                sdk: "xrsimulator",
                target_arg: Some("--target=arm64-apple-xros-simulator"),
            },
        ),
    ]
}

/// Tells whether two texts are the same.
fn same_text(a: &str, b: &str) -> (same: bool)
    ensures
        same == (a@ == b@),
{
    let len = a.unicode_len();
    if len != b.unicode_len() {
        return false;
    }
    for i in 0..len
        invariant
            len == a@.len(),
            len == b@.len(),
            forall|j: int| 0 <= j < i ==> a@[j] == b@[j],
    {
        if a.get_char(i) != b.get_char(i) {
            return false;
        }
    }
    assert(a@ =~= b@);
    true
}

/// What the C headers are read with for `target`, if it needs a kit at all.
pub fn header_sdk(target: &str) -> (sdk: Option<HeaderSdk>)
    ensures
        match sdk {
            Some(sdk) => exists|i: int|
                0 <= i < header_sdks().len() && (#[trigger] header_sdks()[i]).0@ == target@
                    && header_sdks()[i].1 == sdk,
            None => forall|i: int|
                0 <= i < header_sdks().len() ==> (#[trigger] header_sdks()[i]).0@ != target@,
        },
{
    if same_text(target, "aarch64-apple-ios") {
        assert(header_sdks()[0].0@ == target@);
        Some(HeaderSdk { sdk: "iphoneos", target_arg: Some("--target=arm64-apple-ios") })
    } else if same_text(target, "aarch64-apple-ios-sim") {
        assert(header_sdks()[1].0@ == target@);
        Some(
            HeaderSdk {
                sdk: "iphonesimulator",
                target_arg: Some("--target=arm64-apple-ios-simulator"),
            },
        )
    } else if same_text(target, "x86_64-apple-ios") {
        assert(header_sdks()[2].0@ == target@);
        Some(
            HeaderSdk {
                sdk: "iphonesimulator",
                target_arg: Some("--target=x86_64-apple-ios-simulator"),
            },
        )
    } else if same_text(target, "aarch64-apple-darwin") {
        assert(header_sdks()[3].0@ == target@);
        Some(HeaderSdk { sdk: "macosx", target_arg: None })
    } else if same_text(target, "x86_64-apple-darwin") {
        assert(header_sdks()[4].0@ == target@);
        Some(HeaderSdk { sdk: "macosx", target_arg: None })
    } else if same_text(target, "aarch64-apple-tvos") {
        assert(header_sdks()[5].0@ == target@);
        Some(HeaderSdk { sdk: "appletvos", target_arg: Some("--target=arm64-apple-tvos") })
    } else if same_text(target, "aarch64-apple-tvos-sim") {
        assert(header_sdks()[6].0@ == target@);
        Some(
            HeaderSdk {
                sdk: "appletvsimulator",
                target_arg: Some("--target=arm64-apple-tvos-simulator"),
            },
        )
    } else if same_text(target, "x86_64-apple-tvos") {
        assert(header_sdks()[7].0@ == target@);
        Some(
            HeaderSdk {
                sdk: "appletvsimulator",
                target_arg: Some("--target=x86_64-apple-tvos-simulator"),
            },
        )
    } else if same_text(target, "aarch64-apple-visionos") {
        assert(header_sdks()[8].0@ == target@);
        Some(HeaderSdk { sdk: "xros", target_arg: Some("--target=arm64-apple-xros") })
    } else if same_text(target, "aarch64-apple-visionos-sim") {
        assert(header_sdks()[9].0@ == target@);
        Some(
            HeaderSdk {
                sdk: "xrsimulator",
                target_arg: Some("--target=arm64-apple-xros-simulator"),
            },
        )
    } else {
        None
    }
}

/// The system that a target is built for.
pub enum System {
    Darwin,
    Ios,
    Tvos,
    Visionos,
}

impl System {
    /// The name of the system in a target.
    pub open spec fn name(self) -> Seq<char> {
        match self {
            System::Darwin => "darwin"@,
            System::Ios => "ios"@,
            System::Tvos => "tvos"@,
            System::Visionos => "visionos"@,
        }
    }
}

/// The target that is made of an architecture and a system, and says or does not say that it is a
/// simulator.
pub open spec fn apple_target(x86: bool, system: System, simulator: bool) -> Seq<char> {
    (if x86 {
        "x86_64"@
    } else {
        "aarch64"@
    }) + "-apple-"@ + system.name() + (if simulator {
        "-sim"@
    } else {
        Seq::empty()
    })
}

/// A target says that it is a simulator where its architecture leaves it open.
pub open spec fn is_target(x86: bool, system: System, simulator: bool) -> bool {
    match system {
        System::Darwin => !simulator,
        System::Ios => !(x86 && simulator),
        System::Tvos => !(x86 && simulator),
        System::Visionos => !x86,
    }
}

/// The targets that need a kit are made of their architectures and systems.
proof fn lemma_targets()
    ensures
        header_sdks()[0].0@ == apple_target(false, System::Ios, false),
        header_sdks()[1].0@ == apple_target(false, System::Ios, true),
        header_sdks()[2].0@ == apple_target(true, System::Ios, false),
        header_sdks()[3].0@ == apple_target(false, System::Darwin, false),
        header_sdks()[4].0@ == apple_target(true, System::Darwin, false),
        header_sdks()[5].0@ == apple_target(false, System::Tvos, false),
        header_sdks()[6].0@ == apple_target(false, System::Tvos, true),
        header_sdks()[7].0@ == apple_target(true, System::Tvos, false),
        header_sdks()[8].0@ == apple_target(false, System::Visionos, false),
        header_sdks()[9].0@ == apple_target(false, System::Visionos, true),
{
    reveal_strlit("x86_64");
    reveal_strlit("aarch64");
    reveal_strlit("-apple-");
    reveal_strlit("darwin");
    reveal_strlit("ios");
    reveal_strlit("tvos");
    reveal_strlit("visionos");
    reveal_strlit("-sim");
    reveal_strlit("aarch64-apple-ios");
    reveal_strlit("aarch64-apple-ios-sim");
    reveal_strlit("x86_64-apple-ios");
    reveal_strlit("aarch64-apple-darwin");
    reveal_strlit("x86_64-apple-darwin");
    reveal_strlit("aarch64-apple-tvos");
    reveal_strlit("aarch64-apple-tvos-sim");
    reveal_strlit("x86_64-apple-tvos");
    reveal_strlit("aarch64-apple-visionos");
    reveal_strlit("aarch64-apple-visionos-sim");
    assert("aarch64-apple-ios"@ =~= apple_target(false, System::Ios, false));
    assert("aarch64-apple-ios-sim"@ =~= apple_target(false, System::Ios, true));
    assert("x86_64-apple-ios"@ =~= apple_target(true, System::Ios, false));
    assert("aarch64-apple-darwin"@ =~= apple_target(false, System::Darwin, false));
    assert("x86_64-apple-darwin"@ =~= apple_target(true, System::Darwin, false));
    assert("aarch64-apple-tvos"@ =~= apple_target(false, System::Tvos, false));
    assert("aarch64-apple-tvos-sim"@ =~= apple_target(false, System::Tvos, true));
    assert("x86_64-apple-tvos"@ =~= apple_target(true, System::Tvos, false));
    assert("aarch64-apple-visionos"@ =~= apple_target(false, System::Visionos, false));
    assert("aarch64-apple-visionos-sim"@ =~= apple_target(false, System::Visionos, true));
}

/// What the C compiler is told is made of the architecture and the system.
proof fn lemma_target_args()
    ensures
        "--target=arm64-apple-ios"@ == "--target="@ + "arm64"@ + "-apple-"@ + "ios"@ + Seq::<char>::empty(),
        "--target=arm64-apple-ios-simulator"@ == "--target="@ + "arm64"@ + "-apple-"@ + "ios"@ + "-simulator"@,
        "--target=x86_64-apple-ios-simulator"@ == "--target="@ + "x86_64"@ + "-apple-"@ + "ios"@ + "-simulator"@,
        "--target=arm64-apple-tvos"@ == "--target="@ + "arm64"@ + "-apple-"@ + "tvos"@ + Seq::<char>::empty(),
        "--target=arm64-apple-tvos-simulator"@ == "--target="@ + "arm64"@ + "-apple-"@ + "tvos"@ + "-simulator"@,
        "--target=x86_64-apple-tvos-simulator"@ == "--target="@ + "x86_64"@ + "-apple-"@ + "tvos"@ + "-simulator"@,
        "--target=arm64-apple-xros"@ == "--target="@ + "arm64"@ + "-apple-"@ + "xros"@ + Seq::<char>::empty(),
        "--target=arm64-apple-xros-simulator"@ == "--target="@ + "arm64"@ + "-apple-"@ + "xros"@ + "-simulator"@,
{
    reveal_strlit("--target=");
    reveal_strlit("arm64");
    reveal_strlit("x86_64");
    reveal_strlit("-apple-");
    reveal_strlit("ios");
    reveal_strlit("tvos");
    reveal_strlit("xros");
    reveal_strlit("-simulator");
    reveal_strlit("--target=arm64-apple-ios");
    reveal_strlit("--target=arm64-apple-ios-simulator");
    reveal_strlit("--target=x86_64-apple-ios-simulator");
    reveal_strlit("--target=arm64-apple-tvos");
    reveal_strlit("--target=arm64-apple-tvos-simulator");
    reveal_strlit("--target=x86_64-apple-tvos-simulator");
    reveal_strlit("--target=arm64-apple-xros");
    reveal_strlit("--target=arm64-apple-xros-simulator");
    assert("--target=arm64-apple-ios"@ =~= "--target="@ + "arm64"@ + "-apple-"@ + "ios"@ + Seq::<char>::empty());
    assert("--target=arm64-apple-ios-simulator"@ =~= "--target="@ + "arm64"@ + "-apple-"@ + "ios"@ + "-simulator"@);
    assert("--target=x86_64-apple-ios-simulator"@ =~= "--target="@ + "x86_64"@ + "-apple-"@ + "ios"@ + "-simulator"@);
    assert("--target=arm64-apple-tvos"@ =~= "--target="@ + "arm64"@ + "-apple-"@ + "tvos"@ + Seq::<char>::empty());
    assert("--target=arm64-apple-tvos-simulator"@ =~= "--target="@ + "arm64"@ + "-apple-"@ + "tvos"@ + "-simulator"@);
    assert("--target=x86_64-apple-tvos-simulator"@ =~= "--target="@ + "x86_64"@ + "-apple-"@ + "tvos"@ + "-simulator"@);
    assert("--target=arm64-apple-xros"@ =~= "--target="@ + "arm64"@ + "-apple-"@ + "xros"@ + Seq::<char>::empty());
    assert("--target=arm64-apple-xros-simulator"@ =~= "--target="@ + "arm64"@ + "-apple-"@ + "xros"@ + "-simulator"@);
}

/// No two architectures and systems make the same target.
proof fn lemma_target_of_row(row: int, x86: bool, system: System, simulator: bool)
    requires
        0 <= row < 10,
        header_sdks()[row].0@ == apple_target(x86, system, simulator),
    ensures
        is_target(x86, system, simulator),
        row == 0 ==> !x86 && system is Ios && !simulator,
        row == 1 ==> !x86 && system is Ios && simulator,
        row == 2 ==> x86 && system is Ios && !simulator,
        row == 3 ==> !x86 && system is Darwin && !simulator,
        row == 4 ==> x86 && system is Darwin && !simulator,
        row == 5 ==> !x86 && system is Tvos && !simulator,
        row == 6 ==> !x86 && system is Tvos && simulator,
        row == 7 ==> x86 && system is Tvos && !simulator,
        row == 8 ==> !x86 && system is Visionos && !simulator,
        row == 9 ==> !x86 && system is Visionos && simulator,
{
    lemma_targets();
    reveal_strlit("x86_64");
    reveal_strlit("aarch64");
    reveal_strlit("-apple-");
    reveal_strlit("darwin");
    reveal_strlit("ios");
    reveal_strlit("tvos");
    reveal_strlit("visionos");
    reveal_strlit("-sim");
    let target = header_sdks()[row].0@;
    let own = apple_target(x86, system, simulator);
    assert(target.len() == own.len());
    assert(target[0] == own[0]);
    let at = if x86 {
        13int
    } else {
        14int
    };
    assert(own[at] == system.name()[0]);
    assert(target[at] == own[at]);
}

/// A target needs a kit exactly if it is one of those of the four systems. The kit is that of the
/// system, or that of its simulator if the target says so or has the architecture of one, and the C
/// compiler is told the architecture, the system and whether it is a simulator.
pub proof fn law_header_sdk(
    target: &str,
    sdk: Option<HeaderSdk>,
    x86: bool,
    system: System,
    simulator: bool,
)
    requires
        header_sdk.ensures((target,), sdk),
        target@ == apple_target(x86, system, simulator),
    ensures
        sdk is Some <==> is_target(x86, system, simulator),
        sdk matches Some(kit) ==> match system {
            System::Darwin => kit.sdk@ == "macosx"@ && kit.target_arg is None,
            _ => {
                let simulated = x86 || simulator;
                &&& kit.sdk@ == match system {
                    System::Ios => if simulated {
                        "iphonesimulator"@
                    } else {
                        "iphoneos"@
                    },
                    System::Tvos => if simulated {
                        "appletvsimulator"@
                    } else {
                        "appletvos"@
                    },
                    _ => if simulated {
                        "xrsimulator"@
                    } else {
                        "xros"@
                    },
                }
                &&& kit.target_arg is Some
                &&& kit.target_arg->0@ == "--target="@ + (if x86 {
                    "x86_64"@
                } else {
                    "arm64"@
                }) + "-apple-"@ + (if system is Visionos {
                    "xros"@
                } else {
                    system.name()
                }) + (if simulated {
                    "-simulator"@
                } else {
                    Seq::empty()
                })
            },
        },
{
    lemma_targets();
    lemma_target_args();
    let rows = header_sdks();
    let row: int = match system {
        System::Darwin => if x86 {
            4int
        } else {
            3int
        },
        System::Ios => if x86 {
            2int
        } else if simulator {
            1int
        } else {
            0int
        },
        System::Tvos => if x86 {
            7int
        } else if simulator {
            6int
        } else {
            5int
        },
        System::Visionos => if simulator {
            9int
        } else {
            8int
        },
    };
    if is_target(x86, system, simulator) {
        assert(rows[row].0@ == target@);
    }
    if let Some(kit) = sdk {
        let i = choose|i: int|
            0 <= i < rows.len() && (#[trigger] rows[i]).0@ == target@ && rows[i].1 == kit;
        lemma_target_of_row(i, x86, system, simulator);
        assert(i == row);
    }
}

/// A target that is none of those of the four systems needs no kit.
pub proof fn law_other_targets_need_no_kit(target: &str, sdk: Option<HeaderSdk>)
    requires
        header_sdk.ensures((target,), sdk),
        forall|x86: bool, system: System, simulator: bool|
            is_target(x86, system, simulator) ==> target@ != #[trigger] apple_target(
                x86,
                system,
                simulator,
            ),
    ensures
        sdk is None,
{
    lemma_targets();
}

/// Any target can be asked about.
pub proof fn law_any_target_can_be_asked_about(target: &str)
    ensures
        header_sdk.requires((target,)),
{
}

} // verus!
