//! The table of procedures that a program can look up by name.

pub mod laws;

use vstd::prelude::*;

verus! {

/// The characters that Unicode counts as white space.
pub open spec fn white_space(c: char) -> bool {
    ||| '\u{9}' <= c <= '\u{d}'
    ||| c == ' '
    ||| c == '\u{85}'
    ||| c == '\u{a0}'
    ||| c == '\u{1680}'
    ||| '\u{2000}' <= c <= '\u{200a}'
    ||| c == '\u{2028}'
    ||| c == '\u{2029}'
    ||| c == '\u{202f}'
    ||| c == '\u{205f}'
    ||| c == '\u{3000}'
}

/// The characters that may stand before a declaration on its line.
pub open spec fn indent() -> spec_fn(char) -> bool {
    |c: char| white_space(c) && c != '\n'
}

/// The characters that a name is made of.
pub open spec fn name_char() -> spec_fn(char) -> bool {
    |c: char| 'a' <= c <= 'z' || 'A' <= c <= 'Z' || '0' <= c <= '9' || c == '_'
}

/// Where the run of characters of one class that starts at `at` ends.
pub open spec fn run_end(text: Seq<char>, at: int, class: spec_fn(char) -> bool) -> int
    decreases text.len() - at,
{
    if at < text.len() && class(text[at]) {
        run_end(text, at + 1, class)
    } else {
        at
    }
}

/// `word` stands in the text at `at`.
pub open spec fn stands_at(text: Seq<char>, at: int, word: Seq<char>) -> bool {
    &&& at + word.len() <= text.len()
    &&& text.subrange(at, at + word.len()) == word
}

/// A line starts at `at`.
pub open spec fn line_start(text: Seq<char>, at: int) -> bool {
    &&& 0 <= at <= text.len()
    &&& at == 0 || text[at - 1] == '\n'
}

/// The procedure that the line at `line` declares, if it declares one.
///
/// Such a line starts with `pub fn ` behind its indentation, and with a name that starts with
/// `wgpu` behind that.
pub open spec fn declaration(text: Seq<char>, line: int) -> Option<Seq<char>> {
    let at = run_end(text, line, indent());
    let from = at + "pub fn "@.len();
    let name = text.subrange(from, run_end(text, from, name_char()));
    if stands_at(text, at, "pub fn "@) && stands_at(name, 0, "wgpu"@) {
        Some(name)
    } else {
        None
    }
}

/// Some line of the text declares the procedure `name`.
pub open spec fn declares(text: Seq<char>, name: Seq<char>) -> bool {
    exists|line: int| #[trigger] line_start(text, line) && declaration(text, line) == Some(name)
}

/// The bytes of a name.
pub open spec fn name_bytes(name: Seq<char>) -> Seq<u8> {
    name.map_values(|c: char| c as u8)
}

/// `a` comes before `b` in the order of byte strings: where they first differ, `a` has the
/// smaller byte, or ends.
pub open spec fn before(a: Seq<u8>, b: Seq<u8>) -> bool {
    exists|k: int| #[trigger] differ_at(a, b, k)
}

/// The first `k` bytes agree, and there `a` has the smaller byte, or ends.
pub open spec fn differ_at(a: Seq<u8>, b: Seq<u8>, k: int) -> bool {
    &&& 0 <= k <= a.len()
    &&& k < b.len()
    &&& forall|i: int| 0 <= i < k ==> #[trigger] a[i] == b[i]
    &&& k == a.len() || a[k] < b[k]
}

/// Each name comes before all that follow it.
pub open spec fn ascending(names: Seq<Vec<u8>>) -> bool {
    forall|i: int, j: int|
        0 <= i < j < names.len() ==> before((#[trigger] names[i])@, (#[trigger] names[j])@)
}

/// `name` is among the names.
pub open spec fn lists(names: Seq<Vec<u8>>, name: Seq<u8>) -> bool {
    exists|i: int| 0 <= i < names.len() && (#[trigger] names[i])@ == name
}

/// How two byte strings are ordered.
enum Order {
    Before,
    Same,
    After,
}

/// Compares two byte strings.
fn order(a: &[u8], b: &[u8]) -> (order: Order)
    ensures
        match order {
            Order::Before => before(a@, b@),
            Order::Same => a@ == b@,
            Order::After => before(b@, a@),
        },
{
    let mut k: usize = 0;
    while k < a.len() && k < b.len()
        invariant
            k <= a@.len(),
            k <= b@.len(),
            forall|i: int| 0 <= i < k ==> #[trigger] a@[i] == b@[i],
        decreases a@.len() - k,
    {
        if a[k] < b[k] {
            assert(differ_at(a@, b@, k as int));
            return Order::Before;
        }
        if b[k] < a[k] {
            assert(differ_at(b@, a@, k as int));
            return Order::After;
        }
        k = k + 1;
    }
    if k < b.len() {
        assert(differ_at(a@, b@, k as int));
        Order::Before
    } else if k < a.len() {
        assert(differ_at(b@, a@, k as int));
        Order::After
    } else {
        assert(a@ =~= b@);
        Order::Same
    }
}

/// The order of byte strings is transitive.
proof fn lemma_before_transitive(a: Seq<u8>, b: Seq<u8>, c: Seq<u8>)
    requires
        before(a, b),
        before(b, c),
    ensures
        before(a, c),
{
    let j = choose|k: int| #[trigger] differ_at(a, b, k);
    let k = choose|k: int| #[trigger] differ_at(b, c, k);
    let first = if j < k {
        j
    } else {
        k
    };
    assert(differ_at(a, c, first));
}

/// Puts `name` where it belongs, unless it is there.
fn insert_name(names: &mut Vec<Vec<u8>>, name: Vec<u8>)
    requires
        ascending(old(names)@),
    ensures
        ascending(final(names)@),
        forall|any: Seq<u8>| #[trigger]
            lists(final(names)@, any) <==> lists(old(names)@, any) || any == name@,
{
    let ghost prior = names@;
    let mut at: usize = 0;
    while at < names.len()
        invariant
            names@ == prior,
            at <= prior.len(),
            ascending(prior),
            forall|i: int| 0 <= i < at ==> before((#[trigger] prior[i])@, name@),
        ensures
            at == prior.len() || before(name@, prior[at as int]@),
        decreases prior.len() - at,
    {
        match order(&names[at], &name) {
            Order::Before => {},
            Order::Same => {
                assert(prior[at as int]@ == name@);
                return ;
            },
            Order::After => {
                break ;
            },
        }
        at = at + 1;
    }
    let ghost new = name;
    names.insert(at, name);
    proof {
        assert(names@ == prior.insert(at as int, new));
        assert forall|i: int| at <= i < prior.len() implies before(
            new@,
            (#[trigger] prior[i])@,
        ) by {
            if at < i {
                lemma_before_transitive(new@, prior[at as int]@, prior[i]@);
            }
        }
        assert forall|i: int, j: int| 0 <= i < j < names@.len() implies before(
            (#[trigger] names@[i])@,
            (#[trigger] names@[j])@,
        ) by {
            let before_i = if i < at { i } else { i - 1 };
            let before_j = if j < at { j } else { j - 1 };
            assert(i != at ==> names@[i] == prior[before_i]);
            assert(j != at ==> names@[j] == prior[before_j]);
        }
        assert forall|any: Seq<u8>| #[trigger]
            lists(names@, any) <==> lists(prior, any) || any == new@ by {
            if lists(prior, any) {
                let i = choose|i: int| 0 <= i < prior.len() && (#[trigger] prior[i])@ == any;
                let moved = if i < at { i } else { i + 1 };
                assert(names@[moved]@ == any);
            }
            assert(names@[at as int] == new);
            if lists(names@, any) {
                let i = choose|i: int| 0 <= i < names@.len() && (#[trigger] names@[i])@ == any;
                if i != at {
                    let origin = if i < at { i } else { i - 1 };
                    assert(prior[origin]@ == any);
                }
            }
        }
    }
}

/// Tells whether `c` is white space other than the end of a line.
fn is_indent(c: char) -> (indents: bool)
    ensures
        indents == indent()(c),
{
    ('\u{9}' <= c && c <= '\u{d}' || c == ' ' || c == '\u{85}' || c == '\u{a0}' || c == '\u{1680}'
        || '\u{2000}' <= c && c <= '\u{200a}' || c == '\u{2028}' || c == '\u{2029}' || c
        == '\u{202f}' || c == '\u{205f}' || c == '\u{3000}') && c != '\n'
}

/// Tells whether `c` may be part of a name.
fn is_name_char(c: char) -> (part: bool)
    ensures
        part == name_char()(c),
{
    'a' <= c && c <= 'z' || 'A' <= c && c <= 'Z' || '0' <= c && c <= '9' || c == '_'
}

/// Tells whether `word` stands in the text at `at`.
fn word_stands_at(text: &Vec<char>, at: usize, word: &str) -> (stands: bool)
    requires
        at <= text@.len(),
    ensures
        stands == stands_at(text@, at as int, word@),
{
    let len = word.unicode_len();
    if len > text.len() - at {
        return false;
    }
    for i in 0..len
        invariant
            len == word@.len(),
            at + len <= text@.len(),
            at + len <= usize::MAX,
            forall|j: int| 0 <= j < i ==> text@[at + j] == #[trigger] word@[j],
    {
        if text[at + i] != word.get_char(i) {
            assert(text@.subrange(at as int, at + len)[i as int] != word@[i as int]);
            return false;
        }
    }
    assert(text@.subrange(at as int, at + len) =~= word@);
    true
}

/// The procedure that the line at `line` declares, if it declares one.
fn declared_at(text: &Vec<char>, line: usize) -> (name: Option<Vec<u8>>)
    requires
        line <= text@.len(),
    ensures
        match declaration(text@, line as int) {
            Some(declared) => name is Some && name->0@ == name_bytes(declared),
            None => name is None,
        },
{
    proof {
        reveal_strlit("pub fn ");
        reveal_strlit("wgpu");
    }
    let mut at = line;
    while at < text.len() && is_indent(text[at])
        invariant
            line <= at <= text@.len(),
            run_end(text@, line as int, indent()) == run_end(text@, at as int, indent()),
        decreases text@.len() - at,
    {
        at = at + 1;
    }
    if !word_stands_at(text, at, "pub fn ") {
        return None;
    }
    let from = at + 7;
    let mut end = from;
    let mut name: Vec<u8> = Vec::new();
    while end < text.len() && is_name_char(text[end])
        invariant
            from <= end <= text@.len(),
            run_end(text@, from as int, name_char()) == run_end(text@, end as int, name_char()),
            name@ == name_bytes(text@.subrange(from as int, end as int)),
        decreases text@.len() - end,
    {
        name.push(text[end] as u8);
        end = end + 1;
        assert(name@ =~= name_bytes(text@.subrange(from as int, end as int)));
    }
    let ghost declared = text@.subrange(from as int, end as int);
    if end - from >= 4 && word_stands_at(text, from, "wgpu") {
        assert(declared.subrange(0, 4) =~= text@.subrange(from as int, from + 4));
        Some(name)
    } else {
        assert(declared.len() >= 4 ==> declared.subrange(0, 4) =~= text@.subrange(
            from as int,
            from + 4,
        ));
        None
    }
}

/// Where the first line behind `at` starts, if there is one.
fn next_line(text: &Vec<char>, at: usize) -> (next: Option<usize>)
    requires
        at <= text@.len(),
    ensures
        match next {
            Some(next) => {
                &&& at < next <= text@.len()
                &&& line_start(text@, next as int)
                &&& forall|line: int| at < line < next ==> !line_start(text@, line)
            },
            None => forall|line: int| at < line ==> !line_start(text@, line),
        },
{
    let mut end = at;
    while end < text.len()
        invariant
            at <= end <= text@.len(),
            forall|i: int| at <= i < end ==> text@[i] != '\n',
        decreases text@.len() - end,
    {
        if text[end] == '\n' {
            return Some(end + 1);
        }
        end = end + 1;
    }
    None
}

/// The lines of the text before `end` declare a procedure whose name has these bytes.
spec fn declared_before(text: Seq<char>, end: int, name: Seq<u8>) -> bool {
    exists|line: int| #[trigger]
        line_start(text, line) && line < end && declaration(text, line) is Some && name_bytes(
            declaration(text, line)->0,
        ) == name
}

/// The names of the procedures that the text declares, in ascending order.
pub fn proc_names(bindings: &str) -> (names: Vec<Vec<u8>>)
    ensures
        ascending(names@),
        forall|name: Seq<u8>| #[trigger]
            lists(names@, name) <==> exists|declared: Seq<char>| #[trigger]
                declares(bindings@, declared) && name == name_bytes(declared),
{
    let mut text: Vec<char> = Vec::new();
    for c in chars: bindings.chars()
        invariant
            text@ == chars.seq().take(chars.index()),
    {
        text.push(c);
        assert(text@ =~= chars.seq().take(chars.index() + 1));
    }
    assert(text@ == bindings@);
    let mut names: Vec<Vec<u8>> = Vec::new();
    let mut line: usize = 0;
    loop
        invariant_except_break
            text@ == bindings@,
            line_start(text@, line as int),
            ascending(names@),
            forall|name: Seq<u8>| #[trigger]
                lists(names@, name) <==> declared_before(text@, line as int, name),
        ensures
            text@ == bindings@,
            ascending(names@),
            forall|name: Seq<u8>| #[trigger]
                lists(names@, name) <==> declared_before(text@, text@.len() as int + 1, name),
        decreases text@.len() - line,
    {
        let ghost prior = names@;
        let declared = declared_at(&text, line);
        if let Some(name) = declared {
            insert_name(&mut names, name);
        }
        let next = next_line(&text, line);
        let ghost until: int = if next is Some {
            next->0 as int
        } else {
            text@.len() as int + 1
        };
        proof {
            assert forall|name: Seq<u8>| #[trigger]
                lists(names@, name) <==> declared_before(text@, until, name) by {
                let own = declaration(text@, line as int);
                assert(lists(names@, name) <==> lists(prior, name) || own is Some && name
                    == name_bytes(own->0));
                if declared_before(text@, line as int, name) {
                    let from = choose|from: int| #[trigger]
                        line_start(text@, from) && from < line && declaration(text@, from) is Some
                            && name_bytes(declaration(text@, from)->0) == name;
                    assert(line_start(text@, from));
                }
                if declared_before(text@, until, name) {
                    let from = choose|from: int| #[trigger]
                        line_start(text@, from) && from < until && declaration(text@, from) is Some
                            && name_bytes(declaration(text@, from)->0) == name;
                    assert(from <= line);
                }
                assert(line_start(text@, line as int));
            }
        }
        match next {
            Some(next) => {
                line = next;
            },
            None => {
                break ;
            },
        }
    }
    proof {
        assert forall|name: Seq<u8>| #[trigger]
            lists(names@, name) <==> exists|declared: Seq<char>| #[trigger]
                declares(bindings@, declared) && name == name_bytes(declared) by {
            if declared_before(text@, text@.len() as int + 1, name) {
                let line = choose|line: int| #[trigger]
                    line_start(text@, line) && line < text@.len() + 1 && declaration(
                        text@,
                        line,
                    ) is Some && name_bytes(declaration(text@, line)->0) == name;
                assert(declares(bindings@, declaration(text@, line)->0));
            }
            if exists|declared: Seq<char>| #[trigger]
                declares(bindings@, declared) && name == name_bytes(declared) {
                let declared = choose|declared: Seq<char>| #[trigger]
                    declares(bindings@, declared) && name == name_bytes(declared);
                let line = choose|line: int| #[trigger]
                    line_start(text@, line) && declaration(text@, line) == Some(declared);
                assert(line_start(text@, line));
            }
        }
    }
    names
}

/// The bytes of a text.
pub open spec fn utf8(text: &str) -> Seq<u8> {
    vstd::utf8::encode_utf8(text@)
}

/// The procedures without which no table is complete.
pub open spec fn required_names() -> Seq<&'static str> {
    seq!["wgpuGetProcAddress", "wgpuCreateInstance", "wgpuSetLogCallback"]
}

/// The arm of the lookup that finds the procedure `name`.
pub open spec fn arm(name: Seq<u8>) -> Seq<u8> {
    utf8("b\"") + name + utf8("\" => native::") + name
        + utf8(" as *const (),\n")
}

/// The entry of `name` in the list of all names.
pub open spec fn entry(name: Seq<u8>) -> Seq<u8> {
    utf8("b\"") + name + utf8("\",\n")
}

/// The arms of the lookup, in the order of the names.
pub open spec fn arms(names: Seq<Vec<u8>>) -> Seq<u8>
    decreases names.len(),
{
    if names.len() == 0 {
        Seq::empty()
    } else {
        arms(names.drop_last()) + arm(names.last()@)
    }
}

/// The entries of the list of all names, in their order.
pub open spec fn entries(names: Seq<Vec<u8>>) -> Seq<u8>
    decreases names.len(),
{
    if names.len() == 0 {
        Seq::empty()
    } else {
        entries(names.drop_last()) + entry(names.last()@)
    }
}

/// What stands before the arms.
pub const TABLE_HEAD: &'static str = "// Generated from the target's paired C headers.\nfn lookup_proc(name: &[u8]) -> native::WGPUProc {\nlet address = match name {\n";

/// What stands between the arms and the entries.
pub const TABLE_MIDDLE: &'static str = "_ => return None,\n};\n// WGPUProc is the C API's erased function-pointer type.\nSome(unsafe { std::mem::transmute::<*const (), unsafe extern \"C\" fn()>(address) })\n}\n#[cfg(test)]\nconst PROC_NAMES: &[&[u8]] = &[\n";

/// What stands behind the entries.
pub const TABLE_TAIL: &'static str = "];";

/// The source of the lookup over `names`.
pub open spec fn table_source(names: Seq<Vec<u8>>) -> Seq<u8> {
    utf8(TABLE_HEAD) + arms(names) + utf8(TABLE_MIDDLE) + entries(names) + utf8(TABLE_TAIL)
}

/// Appends bytes.
fn append_bytes(target: &mut Vec<u8>, bytes: &[u8])
    ensures
        final(target)@ == old(target)@ + bytes@,
{
    let ghost prior = target@;
    for i in 0..bytes.len()
        invariant
            target@ == prior + bytes@.take(i as int),
    {
        target.push(bytes[i]);
        assert(bytes@.take(i + 1) =~= bytes@.take(i as int).push(bytes@[i as int]));
    }
    assert(bytes@.take(bytes@.len() as int) =~= bytes@);
}

/// Tells whether `name` is among the names.
fn has_name(names: &[Vec<u8>], name: &[u8]) -> (has: bool)
    ensures
        has == lists(names@, name@),
{
    for i in 0..names.len()
        invariant
            forall|j: int| 0 <= j < i ==> (#[trigger] names@[j])@ != name@,
    {
        match order(&names[i], name) {
            Order::Same => {
                assert(names@[i as int]@ == name@);
                return true;
            },
            Order::Before => {
                proof {
                    lemma_before_irreflexive(names@[i as int]@);
                }
            },
            Order::After => {
                proof {
                    lemma_before_irreflexive(name@);
                }
            },
        }
    }
    false
}

/// No byte string comes before itself.
proof fn lemma_before_irreflexive(a: Seq<u8>)
    ensures
        !before(a, a),
{
}

/// The source of the lookup over `names`, or the first of the required names that is missing.
pub fn write_proc_table(names: &[Vec<u8>]) -> (source: Result<Vec<u8>, &'static str>)
    ensures
        match source {
            Ok(source) => {
                &&& forall|i: int|
                    0 <= i < required_names().len() ==> lists(
                        names@,
                        utf8(#[trigger] required_names()[i]),
                    )
                &&& source@ == table_source(names@)
            },
            Err(missing) => exists|i: int|
                {
                    &&& 0 <= i < required_names().len()
                    &&& #[trigger] required_names()[i] == missing
                    &&& !lists(names@, utf8(missing))
                    &&& forall|j: int|
                        0 <= j < i ==> lists(names@, utf8(#[trigger] required_names()[j]))
                },
        },
{
    if !has_name(names, "wgpuGetProcAddress".as_bytes()) {
        assert(required_names()[0] == "wgpuGetProcAddress");
        return Err("wgpuGetProcAddress");
    }
    if !has_name(names, "wgpuCreateInstance".as_bytes()) {
        assert(required_names()[1] == "wgpuCreateInstance");
        return Err("wgpuCreateInstance");
    }
    if !has_name(names, "wgpuSetLogCallback".as_bytes()) {
        assert(required_names()[2] == "wgpuSetLogCallback");
        return Err("wgpuSetLogCallback");
    }
    let mut source: Vec<u8> = Vec::new();
    append_bytes(&mut source, TABLE_HEAD.as_bytes());
    let ghost head = utf8(TABLE_HEAD);
    for i in 0..names.len()
        invariant
            head == utf8(TABLE_HEAD),
            source@ == head + arms(names@.take(i as int)),
    {
        append_bytes(&mut source, "b\"".as_bytes());
        append_bytes(&mut source, &names[i]);
        append_bytes(&mut source, "\" => native::".as_bytes());
        append_bytes(&mut source, &names[i]);
        append_bytes(&mut source, " as *const (),\n".as_bytes());
        assert(names@.take(i + 1).drop_last() =~= names@.take(i as int));
        assert(source@ =~= head + arms(names@.take(i + 1)));
    }
    assert(names@.take(names@.len() as int) =~= names@);
    append_bytes(&mut source, TABLE_MIDDLE.as_bytes());
    let ghost middle = source@;
    for i in 0..names.len()
        invariant
            source@ == middle + entries(names@.take(i as int)),
    {
        append_bytes(&mut source, "b\"".as_bytes());
        append_bytes(&mut source, &names[i]);
        append_bytes(&mut source, "\",\n".as_bytes());
        assert(names@.take(i + 1).drop_last() =~= names@.take(i as int));
        assert(source@ =~= middle + entries(names@.take(i + 1)));
    }
    append_bytes(&mut source, TABLE_TAIL.as_bytes());
    Ok(source)
}

/// The procedures of a table, by name.
pub struct ProcTable<P> {
    names: Vec<Vec<u8>>,
    procs: Vec<P>,
}

impl<P> View for ProcTable<P> {
    type V = Map<Seq<u8>, P>;

    closed spec fn view(&self) -> Map<Seq<u8>, P> {
        Map::new(
            |name: Seq<u8>| lists(self.names@, name),
            |name: Seq<u8>| self.procs@[index_of(self.names@, name)],
        )
    }
}

/// The index of `name` among the names.
spec fn index_of(names: Seq<Vec<u8>>, name: Seq<u8>) -> int {
    choose|i: int| 0 <= i < names.len() && (#[trigger] names[i])@ == name
}

/// In ascending names each name has one index.
proof fn lemma_index_unique(names: Seq<Vec<u8>>, i: int)
    requires
        ascending(names),
        0 <= i < names.len(),
    ensures
        index_of(names, names[i]@) == i,
{
    let j = index_of(names, names[i]@);
    assert(names[i]@ == names[i]@);
    lemma_before_irreflexive(names[i]@);
    if i < j {
        assert(before(names[i]@, names[j]@));
    }
    if j < i {
        assert(before(names[j]@, names[i]@));
    }
}

impl<P> ProcTable<P> {
    #[verifier::type_invariant]
    closed spec fn wf(self) -> bool {
        &&& ascending(self.names@)
        &&& self.names@.len() == self.procs@.len()
    }

    /// The table that gives each of the names the procedure at the same place.
    pub fn new(names: Vec<Vec<u8>>, procs: Vec<P>) -> (table: Self)
        requires
            ascending(names@),
            names@.len() == procs@.len(),
        ensures
            forall|name: Seq<u8>| #[trigger]
                table@.dom().contains(name) <==> lists(names@, name),
            forall|i: int|
                0 <= i < names@.len() ==> table@[(#[trigger] names@[i])@] == procs@[i],
    {
        let table = ProcTable { names, procs };
        proof {
            assert forall|i: int| 0 <= i < names@.len() implies table@[(#[trigger] names@[i])@]
                == procs@[i] by {
                lemma_index_unique(names@, i);
                assert(lists(names@, names@[i]@));
            }
        }
        table
    }
}

impl<P: Copy> ProcTable<P> {
    /// The procedure `name`, if the table has it.
    pub fn lookup_proc(&self, name: &[u8]) -> (found: Option<P>)
        ensures
            found == if self@.dom().contains(name@) {
                Some(self@[name@])
            } else {
                None
            },
    {
        proof {
            use_type_invariant(self);
        }
        for i in 0..self.names.len()
            invariant
                ascending(self.names@),
                self.names@.len() == self.procs@.len(),
                forall|j: int| 0 <= j < i ==> (#[trigger] self.names@[j])@ != name@,
        {
            match order(&self.names[i], name) {
                Order::Same => {
                    proof {
                        lemma_index_unique(self.names@, i as int);
                        assert(lists(self.names@, name@));
                    }
                    return Some(self.procs[i]);
                },
                Order::Before => {
                    proof {
                        lemma_before_irreflexive(name@);
                    }
                },
                Order::After => {
                    proof {
                        lemma_before_irreflexive(name@);
                    }
                },
            }
        }
        None
    }
}

/// The order of byte strings goes one way only.
proof fn lemma_before_antisymmetric(a: Seq<u8>, b: Seq<u8>)
    requires
        before(a, b),
    ensures
        !before(b, a),
        a != b,
{
    if before(b, a) {
        lemma_before_transitive(a, b, a);
    }
    lemma_before_irreflexive(a);
}

/// The names that a text declares determine the list of names.
pub proof fn law_names_determine_the_list(a: Seq<Vec<u8>>, b: Seq<Vec<u8>>)
    requires
        ascending(a),
        ascending(b),
        forall|name: Seq<u8>| lists(a, name) <==> lists(b, name),
    ensures
        a.len() == b.len(),
        forall|i: int| 0 <= i < a.len() ==> (#[trigger] a[i])@ == b[i]@,
    decreases a.len(),
{
    if a.len() == 0 {
        if b.len() > 0 {
            assert(lists(b, b[0]@));
        }
    } else {
        let last = a.len() - 1;
        assert(lists(a, a[last]@));
        let end = b.len() - 1;
        assert(lists(b, b[end]@));
        let i = choose|i: int| 0 <= i < a.len() && (#[trigger] a[i])@ == b[end]@;
        let j = choose|j: int| 0 <= j < b.len() && (#[trigger] b[j])@ == a[last]@;
        if i < last && j < end {
            lemma_before_antisymmetric(a[i]@, a[last]@);
        }
        if i < last && j == end {
            lemma_before_antisymmetric(a[i]@, a[last]@);
        }
        if i == last && j < end {
            lemma_before_antisymmetric(b[j]@, b[end]@);
        }
        assert(a[last]@ == b[end]@);
        assert forall|name: Seq<u8>| lists(a.drop_last(), name) <==> lists(
            b.drop_last(),
            name,
        ) by {
            lemma_lists_drop_last(a, name);
            lemma_lists_drop_last(b, name);
        }
        law_names_determine_the_list(a.drop_last(), b.drop_last());
        assert forall|k: int| 0 <= k < a.len() implies (#[trigger] a[k])@ == b[k]@ by {
            if k < last {
                assert(a.drop_last()[k]@ == b.drop_last()[k]@);
            }
        }
    }
}

/// Every procedure that a text declares, and no other, is found in a table over the names that
/// the text declares.
pub proof fn law_every_declared_procedure_is_found<P>(
    text: Seq<char>,
    names: Seq<Vec<u8>>,
    table: Map<Seq<u8>, P>,
    name: Seq<u8>,
)
    requires
        forall|any: Seq<u8>| #[trigger]
            lists(names, any) <==> exists|declared: Seq<char>| #[trigger]
                declares(text, declared) && any == name_bytes(declared),
        forall|any: Seq<u8>| #[trigger] table.dom().contains(any) <==> lists(names, any),
    ensures
        table.dom().contains(name) <==> exists|declared: Seq<char>| #[trigger]
            declares(text, declared) && name == name_bytes(declared),
{
}

/// The last of ascending names is listed once.
proof fn lemma_lists_drop_last(names: Seq<Vec<u8>>, name: Seq<u8>)
    requires
        ascending(names),
        names.len() > 0,
    ensures
        lists(names.drop_last(), name) <==> lists(names, name) && name != names.last()@,
{
    let last = names.len() - 1;
    if lists(names.drop_last(), name) {
        let i = choose|i: int|
            0 <= i < names.drop_last().len() && (#[trigger] names.drop_last()[i])@ == name;
        assert(names[i]@ == name);
        lemma_before_antisymmetric(names[i]@, names[last]@);
    }
    if lists(names, name) && name != names.last()@ {
        let i = choose|i: int| 0 <= i < names.len() && (#[trigger] names[i])@ == name;
        assert(names.drop_last()[i]@ == name);
    }
}

} // verus!
