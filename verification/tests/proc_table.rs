use wgpu_native::proc_table::{proc_names, write_proc_table, ProcTable};
use wgpu_native::sdk::header_sdk;

fn names(bindings: &str) -> Vec<String> {
    let mut names: Vec<String> = Vec::new();
    for name in proc_names(bindings) {
        names.push(String::from_utf8(name).expect("a name"));
    }
    names
}

#[test]
fn names_are_sorted_and_listed_once() {
    assert_eq!(
        names("pub fn wgpuB();\n  pub fn wgpuA();\npub fn wgpuB(x: u8);\npub fn wgpuAB();"),
        ["wgpuA", "wgpuAB", "wgpuB"]
    );
}

#[test]
fn only_declarations_at_the_start_of_a_line_count() {
    assert_eq!(
        names("fn wgpuA();\n// pub fn wgpuB();\npub  fn wgpuC();\npub fn other();\npub fn Wgpu();"),
        Vec::<String>::new()
    );
    assert_eq!(names(""), Vec::<String>::new());
    assert_eq!(names("pub fn wgpu"), ["wgpu"]);
    assert_eq!(names("pub fn wgp"), Vec::<String>::new());
    assert_eq!(names("pub fn"), Vec::<String>::new());
}

#[test]
fn any_white_space_may_indent_a_declaration() {
    assert_eq!(
        names("\t\u{a0}\u{2003}\u{3000}pub fn wgpuA\r\n\r\n\u{85}pub fn wgpu_2\u{e9}()"),
        ["wgpuA", "wgpu_2"]
    );
    assert_eq!(names("\u{200b}pub fn wgpuA"), Vec::<String>::new());
}

#[test]
fn the_lookup_source_lists_each_name_twice() {
    let names = proc_names(
        "pub fn wgpuSetLogCallback();\npub fn wgpuGetProcAddress();\npub fn wgpuCreateInstance();",
    );
    let source = write_proc_table(&names).expect("complete");
    let source = String::from_utf8(source).expect("text");
    assert_eq!(
        source,
        "// Generated from the target's paired C headers.\n\
         fn lookup_proc(name: &[u8]) -> native::WGPUProc {\n\
         let address = match name {\n\
         b\"wgpuCreateInstance\" => native::wgpuCreateInstance as *const (),\n\
         b\"wgpuGetProcAddress\" => native::wgpuGetProcAddress as *const (),\n\
         b\"wgpuSetLogCallback\" => native::wgpuSetLogCallback as *const (),\n\
         _ => return None,\n};\n\
         // WGPUProc is the C API's erased function-pointer type.\n\
         Some(unsafe { std::mem::transmute::<*const (), unsafe extern \"C\" fn()>(address) })\n}\n\
         #[cfg(test)]\nconst PROC_NAMES: &[&[u8]] = &[\n\
         b\"wgpuCreateInstance\",\nb\"wgpuGetProcAddress\",\nb\"wgpuSetLogCallback\",\n];"
    );
}

#[test]
fn a_table_without_a_required_procedure_is_refused() {
    assert_eq!(write_proc_table(&[]), Err("wgpuGetProcAddress"));
    assert_eq!(
        write_proc_table(&[b"wgpuGetProcAddress".to_vec()]),
        Err("wgpuCreateInstance")
    );
    assert_eq!(
        write_proc_table(&[
            b"wgpuCreateInstance".to_vec(),
            b"wgpuGetProcAddress".to_vec()
        ]),
        Err("wgpuSetLogCallback")
    );
}

#[test]
fn each_name_is_looked_up_whole() {
    let table = ProcTable::new(vec![b"wgpuA".to_vec(), b"wgpuAB".to_vec()], vec![1, 2]);
    assert_eq!(table.lookup_proc(b"wgpuA"), Some(1));
    assert_eq!(table.lookup_proc(b"wgpuAB"), Some(2));
    assert_eq!(table.lookup_proc(b"wgpu"), None);
    assert_eq!(table.lookup_proc(b"wgpuABC"), None);
    assert_eq!(table.lookup_proc(b"wgpuB"), None);
}

#[test]
fn apple_targets_need_a_kit() {
    for (target, sdk, arg) in [
        ("aarch64-apple-ios", "iphoneos", Some("--target=arm64-apple-ios")),
        (
            "aarch64-apple-ios-sim",
            "iphonesimulator",
            Some("--target=arm64-apple-ios-simulator"),
        ),
        (
            "x86_64-apple-ios",
            "iphonesimulator",
            Some("--target=x86_64-apple-ios-simulator"),
        ),
        ("aarch64-apple-darwin", "macosx", None),
        ("x86_64-apple-darwin", "macosx", None),
        ("aarch64-apple-tvos", "appletvos", Some("--target=arm64-apple-tvos")),
        (
            "aarch64-apple-tvos-sim",
            "appletvsimulator",
            Some("--target=arm64-apple-tvos-simulator"),
        ),
        (
            "x86_64-apple-tvos",
            "appletvsimulator",
            Some("--target=x86_64-apple-tvos-simulator"),
        ),
        ("aarch64-apple-visionos", "xros", Some("--target=arm64-apple-xros")),
        (
            "aarch64-apple-visionos-sim",
            "xrsimulator",
            Some("--target=arm64-apple-xros-simulator"),
        ),
    ] {
        let found = header_sdk(target).expect("a kit");
        assert_eq!((found.sdk, found.target_arg), (sdk, arg));
    }
    for target in ["x86_64-unknown-linux-gnu", "aarch64-apple-iossim", ""] {
        assert!(header_sdk(target).is_none());
    }
}
