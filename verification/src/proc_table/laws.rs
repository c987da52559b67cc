//! What the names, the source and the table of procedures amount to.

use vstd::prelude::*;

use super::{proc_names, write_proc_table, ProcTable};

verus! {

/// The character is white space, and it does not end a line.
pub open spec fn blank(c: char) -> bool {
    let code = c as int;
    ||| code == 0x9 || 0xb <= code <= 0xd || code == 0x20 || code == 0x85 || code == 0xa0
    ||| code == 0x1680 || 0x2000 <= code <= 0x200a || code == 0x2028 || code == 0x2029
    ||| code == 0x202f || code == 0x205f || code == 0x3000
}

/// The character is an ASCII letter, an ASCII digit or an underscore.
pub open spec fn word_part(c: char) -> bool {
    let code = c as int;
    ||| 0x30 <= code <= 0x39 || 0x41 <= code <= 0x5a
    ||| code == 0x5f || 0x61 <= code <= 0x7a
}

/// The text is `above`, which ends with a line, then `blanks`, the words `pub fn `, the whole word
/// `name`, which starts with `wgpu`, and `rest`.
pub open spec fn declared_between(
    text: Seq<char>,
    above: Seq<char>,
    blanks: Seq<char>,
    name: Seq<char>,
    rest: Seq<char>,
) -> bool {
    &&& text == above + blanks + seq!['p', 'u', 'b', ' ', 'f', 'n', ' '] + name + rest
    &&& above.len() == 0 || above.last() == '\n'
    &&& forall|k: int| 0 <= k < blanks.len() ==> blank(#[trigger] blanks[k])
    &&& name.len() >= 4 && name[0] == 'w' && name[1] == 'g' && name[2] == 'p' && name[3] == 'u'
    &&& forall|k: int| 0 <= k < name.len() ==> word_part(#[trigger] name[k])
    &&& rest.len() == 0 || !word_part(rest[0])
}

/// The bytes of a text of ASCII characters.
pub open spec fn ascii(text: Seq<char>) -> Seq<u8> {
    Seq::new(text.len(), |k: int| text[k] as u8)
}

/// The classes of characters are those that the names and their indentation are made of.
proof fn lemma_classes(c: char)
    ensures
        super::indent()(c) == blank(c),
        super::name_char()(c) == word_part(c),
{
}

/// A run ends where the class ends.
proof fn lemma_run_reaches(text: Seq<char>, at: int, class: spec_fn(char) -> bool, end: int)
    requires
        0 <= at <= end <= text.len(),
        forall|k: int| at <= k < end ==> class(#[trigger] text[k]),
        end == text.len() || !class(text[end]),
    ensures
        super::run_end(text, at, class) == end,
    decreases end - at,
{
    if at < end {
        assert(class(text[at]));
        lemma_run_reaches(text, at + 1, class, end);
    }
}

/// A run consists of characters of its class, and the one behind it is not of the class.
proof fn lemma_run(text: Seq<char>, at: int, class: spec_fn(char) -> bool)
    requires
        0 <= at <= text.len(),
    ensures
        ({
            let end = super::run_end(text, at, class);
            &&& at <= end <= text.len()
            &&& forall|k: int| at <= k < end ==> class(#[trigger] text[k])
            &&& end == text.len() || !class(text[end])
        }),
    decreases text.len() - at,
{
    if at < text.len() && class(text[at]) {
        lemma_run(text, at + 1, class);
    }
}

/// Every procedure that stands declared on a line of its own is among the names, with its whole
/// name.
pub proof fn law_declared_names_are_listed(
    bindings: &str,
    names: Vec<Vec<u8>>,
    above: Seq<char>,
    blanks: Seq<char>,
    name: Seq<char>,
    rest: Seq<char>,
)
    requires
        proc_names.ensures((bindings,), names),
        declared_between(bindings@, above, blanks, name, rest),
    ensures
        exists|i: int| 0 <= i < names@.len() && (#[trigger] names@[i])@ == ascii(name),
{
    let text = bindings@;
    let line = above.len() as int;
    let at = line + blanks.len();
    let from = at + 7;
    let end = from + name.len();
    reveal_strlit("pub fn ");
    reveal_strlit("wgpu");
    assert forall|k: int| line <= k < at implies super::indent()(#[trigger] text[k]) by {
        assert(text[k] == blanks[k - line]);
        lemma_classes(text[k]);
    }
    assert(text[at] == 'p');
    lemma_run_reaches(text, line, super::indent(), at);
    assert(text.subrange(at, at + 7) =~= "pub fn "@);
    assert forall|k: int| from <= k < end implies super::name_char()(#[trigger] text[k]) by {
        assert(text[k] == name[k - from]);
        lemma_classes(text[k]);
    }
    if end < text.len() {
        assert(text[end] == rest[0]);
        lemma_classes(text[end]);
    }
    lemma_run_reaches(text, from, super::name_char(), end);
    assert(text.subrange(from, end) =~= name);
    assert(name.subrange(0, 4) =~= "wgpu"@);
    assert(super::declaration(text, line) == Some(name));
    if line > 0 {
        assert(text[line - 1] == above.last());
    }
    assert(super::line_start(text, line));
    assert(super::declares(text, name));
    assert(super::declares(bindings@, name));
    let bytes = super::name_bytes(name);
    let arguments = (bindings,);
    assert(super::declares(arguments.0@, name));
    assert(super::lists(names@, bytes));
    assert(bytes =~= ascii(name));
}

/// Every one of the names stands declared on a line of its own.
pub proof fn law_listed_names_are_declared(bindings: &str, names: Vec<Vec<u8>>, i: int)
    requires
        proc_names.ensures((bindings,), names),
        0 <= i < names@.len(),
    ensures
        exists|above: Seq<char>, blanks: Seq<char>, name: Seq<char>, rest: Seq<char>| #[trigger]
            declared_between(bindings@, above, blanks, name, rest) && names@[i]@ == ascii(name),
{
    let text = bindings@;
    assert(super::lists(names@, names@[i]@));
    let name = choose|name: Seq<char>| #[trigger]
        super::declares(text, name) && names@[i]@ == super::name_bytes(name);
    let line = choose|line: int| #[trigger]
        super::line_start(text, line) && super::declaration(text, line) == Some(name);
    reveal_strlit("pub fn ");
    reveal_strlit("wgpu");
    lemma_run(text, line, super::indent());
    let at = super::run_end(text, line, super::indent());
    let from = at + 7;
    lemma_run(text, from, super::name_char());
    let end = super::run_end(text, from, super::name_char());
    let above = text.subrange(0, line);
    let blanks = text.subrange(line, at);
    let rest = text.subrange(end, text.len() as int);
    let word = text.subrange(at, from);
    assert(word =~= seq!['p', 'u', 'b', ' ', 'f', 'n', ' ']);
    assert(text =~= above + blanks + word + name + rest);
    assert forall|k: int| 0 <= k < blanks.len() implies blank(#[trigger] blanks[k]) by {
        assert(super::indent()(text[line + k]));
        lemma_classes(text[line + k]);
    }
    assert forall|k: int| 0 <= k < name.len() implies word_part(#[trigger] name[k]) by {
        assert(super::name_char()(text[from + k]));
        lemma_classes(text[from + k]);
    }
    if rest.len() > 0 {
        lemma_classes(text[end]);
    }
    let start = name.subrange(0, 4);
    assert(start[0] == 'w' && start[1] == 'g' && start[2] == 'p' && start[3] == 'u');
    assert(super::name_bytes(name) =~= ascii(name));
    assert(declared_between(text, above, blanks, name, rest));
}

/// The first `k` bytes of `a` and `b` agree, and there `a` ends or has the smaller byte.
pub open spec fn smaller_at(a: Seq<u8>, b: Seq<u8>, k: int) -> bool {
    &&& 0 <= k < b.len()
    &&& k <= a.len()
    &&& a.take(k) == b.take(k)
    &&& k < a.len() ==> a[k] < b[k]
}

/// Of any two names the first is the smaller one: the names are sorted, and none is listed twice.
pub proof fn law_names_are_sorted(bindings: &str, names: Vec<Vec<u8>>, i: int, j: int)
    requires
        proc_names.ensures((bindings,), names),
        0 <= i < j < names@.len(),
    ensures
        names@[i]@ != names@[j]@,
        exists|k: int| #[trigger] smaller_at(names@[i]@, names@[j]@, k),
{
    let a = names@[i]@;
    let b = names@[j]@;
    assert(super::before(a, b));
    let k = choose|k: int| #[trigger] super::differ_at(a, b, k);
    assert(a.take(k) =~= b.take(k));
    assert(smaller_at(a, b, k));
}

/// The text is among the names.
pub open spec fn among(names: Seq<Vec<u8>>, text: Seq<char>) -> bool {
    exists|i: int|
        0 <= i < names.len() && (#[trigger] names[i])@ == vstd::utf8::encode_utf8(text)
}

/// The parts of a list of arms are those of the names, one behind the other.
proof fn lemma_arms(names: Seq<Vec<u8>>)
    ensures
        super::arms(names) == Seq::new(names.len(), |i: int| super::arm(names[i]@)).flatten(),
        super::entries(names) == Seq::new(names.len(), |i: int| super::entry(names[i]@)).flatten(),
    decreases names.len(),
{
    let arms = Seq::new(names.len(), |i: int| super::arm(names[i]@));
    let entries = Seq::new(names.len(), |i: int| super::entry(names[i]@));
    arms.lemma_flatten_and_flatten_alt_are_equivalent();
    entries.lemma_flatten_and_flatten_alt_are_equivalent();
    if names.len() > 0 {
        let earlier = names.drop_last();
        lemma_arms(earlier);
        let earlier_arms = Seq::new(earlier.len(), |i: int| super::arm(earlier[i]@));
        let earlier_entries = Seq::new(earlier.len(), |i: int| super::entry(earlier[i]@));
        earlier_arms.lemma_flatten_and_flatten_alt_are_equivalent();
        earlier_entries.lemma_flatten_and_flatten_alt_are_equivalent();
        assert(arms.drop_last() =~= earlier_arms);
        assert(entries.drop_last() =~= earlier_entries);
    }
}

/// The source has one arm and one entry for each name, in the order of the names, and is written
/// exactly if the three procedures that no table can be without are among them. Otherwise the first
/// of them that is missing is named.
pub proof fn law_written_table(names: &[Vec<u8>], source: Result<Vec<u8>, &'static str>)
    requires
        write_proc_table.ensures((names,), source),
    ensures
        source is Ok <==> among(names@, "wgpuGetProcAddress"@) && among(
            names@,
            "wgpuCreateInstance"@,
        ) && among(names@, "wgpuSetLogCallback"@),
        source matches Err(missing) ==> missing@ == if !among(names@, "wgpuGetProcAddress"@) {
            "wgpuGetProcAddress"@
        } else if !among(names@, "wgpuCreateInstance"@) {
            "wgpuCreateInstance"@
        } else {
            "wgpuSetLogCallback"@
        },
        source matches Ok(bytes) ==> bytes@ == vstd::utf8::encode_utf8(
            "// Generated from the target's paired C headers.\nfn lookup_proc(name: &[u8]) -> native::WGPUProc {\nlet address = match name {\n"@,
        ) + Seq::new(
            names@.len(),
            |i: int|
                vstd::utf8::encode_utf8("b\""@) + names@[i]@ + vstd::utf8::encode_utf8(
                    "\" => native::"@,
                ) + names@[i]@ + vstd::utf8::encode_utf8(" as *const (),\n"@),
        ).flatten() + vstd::utf8::encode_utf8(
            "_ => return None,\n};\n// WGPUProc is the C API's erased function-pointer type.\nSome(unsafe { std::mem::transmute::<*const (), unsafe extern \"C\" fn()>(address) })\n}\n#[cfg(test)]\nconst PROC_NAMES: &[&[u8]] = &[\n"@,
        ) + Seq::new(
            names@.len(),
            |i: int|
                vstd::utf8::encode_utf8("b\""@) + names@[i]@ + vstd::utf8::encode_utf8("\",\n"@),
        ).flatten() + vstd::utf8::encode_utf8("];"@),
{
    let required = super::required_names();
    assert(required[0] == "wgpuGetProcAddress");
    assert(required[1] == "wgpuCreateInstance");
    assert(required[2] == "wgpuSetLogCallback");
    assert forall|text: &'static str| #[trigger] super::lists(names@, super::utf8(text)) <==> among(
        names@,
        text@,
    ) by {
        if super::lists(names@, super::utf8(text)) {
            let i = choose|i: int|
                0 <= i < names@.len() && (#[trigger] names@[i])@ == super::utf8(text);
            assert(names@[i]@ == vstd::utf8::encode_utf8(text@));
        }
    }
    assert(super::lists(names@, super::utf8("wgpuGetProcAddress")) <==> among(
        names@,
        "wgpuGetProcAddress"@,
    ));
    assert(super::lists(names@, super::utf8("wgpuCreateInstance")) <==> among(
        names@,
        "wgpuCreateInstance"@,
    ));
    assert(super::lists(names@, super::utf8("wgpuSetLogCallback")) <==> among(
        names@,
        "wgpuSetLogCallback"@,
    ));
    lemma_arms(names@);
    assert(Seq::new(names@.len(), |i: int| super::arm(names@[i]@)) =~= Seq::new(
        names@.len(),
        |i: int|
            vstd::utf8::encode_utf8("b\""@) + names@[i]@ + vstd::utf8::encode_utf8(
                "\" => native::"@,
            ) + names@[i]@ + vstd::utf8::encode_utf8(" as *const (),\n"@),
    ));
    assert(Seq::new(names@.len(), |i: int| super::entry(names@[i]@)) =~= Seq::new(
        names@.len(),
        |i: int| vstd::utf8::encode_utf8("b\""@) + names@[i]@ + vstd::utf8::encode_utf8("\",\n"@),
    ));
}

/// A table gives each name the procedure at the same place, and has no other names.
pub proof fn law_lookup<P: Copy>(
    names: Vec<Vec<u8>>,
    procs: Vec<P>,
    table: ProcTable<P>,
    name: &[u8],
    found: Option<P>,
)
    requires
        ProcTable::<P>::new.ensures((names, procs), table),
        ProcTable::<P>::lookup_proc.ensures((&table, name), found),
    ensures
        forall|i: int|
            0 <= i < names@.len() && (#[trigger] names@[i])@ == name@ ==> found == Some(procs@[i]),
        (forall|i: int| 0 <= i < names@.len() ==> (#[trigger] names@[i])@ != name@) ==> found
            is None,
{
    assert(table@.dom().contains(name@) <==> super::lists(names@, name@));
}

/// Names can be read from any text, and a table can be made over them.
pub proof fn law_any_text_makes_a_table<P: Copy>(
    bindings: &str,
    names: Vec<Vec<u8>>,
    procs: Vec<P>,
    list: &[Vec<u8>],
    table: &ProcTable<P>,
    name: &[u8],
)
    requires
        proc_names.ensures((bindings,), names),
        names@.len() == procs@.len(),
    ensures
        proc_names.requires((bindings,)),
        write_proc_table.requires((list,)),
        ProcTable::<P>::new.requires((names, procs)),
        ProcTable::<P>::lookup_proc.requires((table, name)),
{
}

} // verus!
