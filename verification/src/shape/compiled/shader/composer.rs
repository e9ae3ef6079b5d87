//! The shader-source composer: resolves `#import` and
//! `#define_import_path` directives across a set of source fragments into
//! one source text, dependencies first.

use vstd::prelude::*;
use vstd::set_lib::*;
use vstd::string::*;

use crate::search::{first_match, lemma_first_match_is};
use crate::text::{
    count_char, count_of, find, find_last_separator, first_occurrence, has_prefix_at,
    last_separator, lemma_count_bounds, line_spans, skip_prefixes, skip_repeated, spans_view,
    spans_within, split_lines, starts_with_at, to_chars, trim_span, trimmed,
};

verus! {

/// The directive that declares the name of a fragment.
pub open spec fn define_directive() -> Seq<char> {
    "#define_import_path"@
}

/// The directive that imports items of another fragment.
pub open spec fn import_directive() -> Seq<char> {
    "#import"@
}

/// The text that opens the item list of a braced import.
pub open spec fn brace_opener() -> Seq<char> {
    "::{"@
}

/// A source fragment under the name other fragments import it by.
#[derive(Debug)]
pub struct ShaderModule {
    pub name: String,
    pub source: String,
}

/// The span of the name that `line` declares, if the line begins with the
/// define directive: what follows every repetition of the directive,
/// trimmed.
pub open spec fn declared_span(s: Seq<char>, line: (int, int)) -> Option<(int, int)> {
    if has_prefix_at(s, line.0, line.1, define_directive()) {
        Some(trimmed(s, skip_repeated(s, line.0, line.1, define_directive()), line.1))
    } else {
        None
    }
}

/// The span of the first declared name among `lines[i..]`.
pub open spec fn first_declared(s: Seq<char>, lines: Seq<(int, int)>, i: int) -> Option<(int, int)>
    decreases lines.len() - i,
{
    if i < 0 || i >= lines.len() {
        None
    } else if declared_span(s, lines[i]).is_some() {
        declared_span(s, lines[i])
    } else {
        first_declared(s, lines, i + 1)
    }
}

/// The name of the fragment `source`: the name its first define directive
/// declares, or `file_stem` if it has none.
pub open spec fn module_name_of(source: Seq<char>, file_stem: Seq<char>) -> Seq<char> {
    match first_declared(source, line_spans(source), 0) {
        Some(span) => source.subrange(span.0, span.1),
        None => file_stem,
    }
}

/// The span of the path that `line` imports from, if the line, trimmed,
/// begins with the import directive: what follows every repetition of the
/// directive, trimmed, up to `::{` if that occurs and else up to its last
/// `::`, or all of it if it holds no `::`.
pub open spec fn import_span(s: Seq<char>, line: (int, int)) -> Option<(int, int)> {
    let (ts, te) = trimmed(s, line.0, line.1);
    if has_prefix_at(s, ts, te, import_directive()) {
        let (cs, ce) = trimmed(s, skip_repeated(s, ts, te, import_directive()), te);
        let brace = first_occurrence(s, cs, ce, brace_opener());
        if brace < ce {
            Some((cs, brace))
        } else {
            let last = last_separator(s, cs, ce, -1);
            if last >= 0 {
                Some((cs, last))
            } else {
                Some((cs, ce))
            }
        }
    } else {
        None
    }
}

/// The import paths of `lines[i..]`, in order, appended to `found`.
pub open spec fn scan_imports(
    s: Seq<char>,
    lines: Seq<(int, int)>,
    i: int,
    found: Seq<Seq<char>>,
) -> Seq<Seq<char>>
    decreases lines.len() - i,
{
    if i < 0 || i >= lines.len() {
        found
    } else {
        match import_span(s, lines[i]) {
            Some(span) => scan_imports(s, lines, i + 1, found.push(s.subrange(span.0, span.1))),
            None => scan_imports(s, lines, i + 1, found),
        }
    }
}

/// The paths that the fragment `source` imports from, one per import
/// directive, in line order.
pub open spec fn import_paths_of(source: Seq<char>) -> Seq<Seq<char>> {
    scan_imports(source, line_spans(source), 0, Seq::empty())
}

/// The lines of `lines[i..]` that are not part of a directive, appended to
/// `kept`.
///
/// A define directive is dropped. An import directive is dropped and, if it
/// opens more braces than it closes, so is every following line until the
/// braces balance. `depth` is the running brace depth of such an import.
pub open spec fn scan_kept(
    s: Seq<char>,
    lines: Seq<(int, int)>,
    i: int,
    in_braced_import: bool,
    depth: int,
    kept: Seq<(int, int)>,
) -> Seq<(int, int)>
    decreases lines.len() - i,
{
    if i < 0 || i >= lines.len() {
        kept
    } else {
        let line = lines[i];
        let (ts, te) = trimmed(s, line.0, line.1);
        let balance = count_of(s, line.0, line.1, '{') - count_of(s, line.0, line.1, '}');
        if has_prefix_at(s, ts, te, define_directive()) {
            scan_kept(s, lines, i + 1, in_braced_import, depth, kept)
        } else if has_prefix_at(s, ts, te, import_directive()) {
            scan_kept(s, lines, i + 1, in_braced_import || balance > 0, balance, kept)
        } else if in_braced_import {
            scan_kept(s, lines, i + 1, depth + balance > 0, depth + balance, kept)
        } else {
            scan_kept(s, lines, i + 1, false, depth, kept.push(line))
        }
    }
}

/// The text of the spans `spans` of `s`, joined by line feeds.
pub open spec fn joined(s: Seq<char>, spans: Seq<(int, int)>) -> Seq<char>
    decreases spans.len(),
{
    if spans.len() == 0 {
        Seq::empty()
    } else if spans.len() == 1 {
        s.subrange(spans[0].0, spans[0].1)
    } else {
        joined(s, spans.drop_last()) + seq!['\n'] + s.subrange(spans.last().0, spans.last().1)
    }
}

/// The fragment `source` without its directives.
pub open spec fn stripped(source: Seq<char>) -> Seq<char> {
    joined(source, scan_kept(source, line_spans(source), 0, false, 0, Seq::empty()))
}

/// Whether each span of `spans` begins at or after the end of the one
/// before it.
pub open spec fn spans_ordered(spans: Seq<(int, int)>) -> bool {
    forall|i: int, j: int| 0 <= i < j < spans.len() ==> (#[trigger] spans[i]).1 <= (
    #[trigger] spans[j]).0
}

/// The lines of a text follow one another.
pub proof fn lemma_lines_ordered(s: Seq<char>, start: int, pos: int, found: Seq<(int, int)>)
    requires
        0 <= start <= pos <= s.len(),
        spans_ordered(found),
        forall|i: int| 0 <= i < found.len() ==> (#[trigger] found[i]).1 <= start,
    ensures
        spans_ordered(crate::text::scan_lines(s, start, pos, found)),
    decreases s.len() - pos,
{
    if pos >= s.len() {
    } else if s[pos] == '\n' {
        let end = if pos > start && s[pos - 1] == '\r' {
            pos - 1
        } else {
            pos
        };
        lemma_lines_ordered(s, pos + 1, pos + 1, found.push((start, end)));
    } else {
        lemma_lines_ordered(s, start, pos + 1, found);
    }
}

impl ShaderModule {
    /// The fragment `source` of the file `file_stem`, under the name it
    /// declares or, if it declares none, under its file stem.
    pub fn new(file_stem: &str, source: String) -> (module: Self)
        ensures
            module.source@ == source@,
            module.name@ == module_name_of(source@, file_stem@),
    {
        let name = module_name(source.as_str(), file_stem);
        ShaderModule { name, source }
    }
}

/// The name of the fragment `source` of the file `file_stem`.
pub fn module_name(source: &str, file_stem: &str) -> (name: String)
    ensures
        name@ == module_name_of(source@, file_stem@),
{
    let text = to_chars(source);
    let lines = split_lines(&text);
    let directive = to_chars("#define_import_path");
    let mut i: usize = 0;
    while i < lines.len()
        invariant
            i <= lines.len(),
            text@ == source@,
            directive@ == define_directive(),
            spans_view(lines@) == line_spans(text@),
            spans_within(spans_view(lines@), text@.len() as int),
            first_declared(text@, line_spans(text@), i as int) == first_declared(
                text@,
                line_spans(text@),
                0,
            ),
        decreases lines.len() - i,
    {
        let (a, b) = lines[i];
        assert(spans_view(lines@)[i as int] == (a as int, b as int));
        if starts_with_at(&text, a, b, &directive) {
            let rest = skip_prefixes(&text, a, b, &directive);
            let (from, to) = trim_span(&text, rest, b);
            return String::from_str(source.substring_char(from, to));
        }
        i += 1;
    }
    String::from_str(file_stem)
}

/// The span of the path that the line `a..b` of `text` imports from, if it
/// is an import directive.
fn import_path_span(
    text: &Vec<char>,
    a: usize,
    b: usize,
    directive: &Vec<char>,
    opener: &Vec<char>,
) -> (found: Option<(usize, usize)>)
    requires
        a <= b <= text@.len(),
        directive@ == import_directive(),
        opener@ == brace_opener(),
    ensures
        match found {
            Some(span) => import_span(text@, (a as int, b as int)) == Some(
                (span.0 as int, span.1 as int),
            ) && a <= span.0 <= span.1 <= b,
            None => import_span(text@, (a as int, b as int)).is_none(),
        },
{
    let (ts, te) = trim_span(text, a, b);
    if !starts_with_at(text, ts, te, directive) {
        return None;
    }
    let rest = skip_prefixes(text, ts, te, directive);
    let (cs, ce) = trim_span(text, rest, te);
    let brace = find(text, cs, ce, opener);
    if brace < ce {
        return Some((cs, brace));
    }
    match find_last_separator(text, cs, ce) {
        Some(last) => Some((cs, last)),
        None => Some((cs, ce)),
    }
}

/// The paths that the fragment `source` imports from, one per import
/// directive, in line order.
pub fn import_paths(source: &str) -> (paths: Vec<String>)
    ensures
        paths@.len() == import_paths_of(source@).len(),
        forall|k: int| 0 <= k < paths@.len() ==> (#[trigger] paths@[k])@ == import_paths_of(
            source@,
        )[k],
{
    let text = to_chars(source);
    let lines = split_lines(&text);
    let directive = to_chars("#import");
    let opener = to_chars("::{");
    let mut paths: Vec<String> = Vec::new();
    let ghost mut found: Seq<Seq<char>> = Seq::empty();
    let mut i: usize = 0;
    while i < lines.len()
        invariant
            i <= lines.len(),
            text@ == source@,
            directive@ == import_directive(),
            opener@ == brace_opener(),
            spans_view(lines@) == line_spans(text@),
            spans_within(spans_view(lines@), text@.len() as int),
            scan_imports(text@, line_spans(text@), i as int, found) == import_paths_of(text@),
            paths@.len() == found.len(),
            forall|k: int| 0 <= k < paths@.len() ==> (#[trigger] paths@[k])@ == found[k],
        decreases lines.len() - i,
    {
        let (a, b) = lines[i];
        assert(spans_view(lines@)[i as int] == (a as int, b as int));
        match import_path_span(&text, a, b, &directive, &opener) {
            Some((from, to)) => {
                paths.push(String::from_str(source.substring_char(from, to)));
                proof {
                    found = found.push(text@.subrange(from as int, to as int));
                }
            },
            None => {},
        }
        i += 1;
    }
    paths
}

/// The fragment `source` without its `#define_import_path` and `#import`
/// directives, multi-line braced imports included.
pub fn strip_directives(source: &str) -> (output: String)
    ensures
        output@ == stripped(source@),
{
    let text = to_chars(source);
    let lines = split_lines(&text);
    let define = to_chars("#define_import_path");
    let import = to_chars("#import");
    let mut output = String::new();
    let mut first = true;
    let mut in_braced_import = false;
    let mut brace_depth: i128 = 0;
    let ghost mut kept: Seq<(int, int)> = Seq::empty();
    let mut i: usize = 0;
    proof {
        lemma_lines_ordered(text@, 0, 0, Seq::empty());
    }
    while i < lines.len()
        invariant
            i <= lines.len(),
            text@ == source@,
            define@ == define_directive(),
            import@ == import_directive(),
            spans_view(lines@) == line_spans(text@),
            spans_within(spans_view(lines@), text@.len() as int),
            spans_ordered(spans_view(lines@)),
            scan_kept(
                text@,
                line_spans(text@),
                i as int,
                in_braced_import,
                brace_depth as int,
                kept,
            ) == scan_kept(text@, line_spans(text@), 0, false, 0, Seq::empty()),
            output@ == joined(text@, kept),
            first == (kept.len() == 0),
            -(if i == 0 {
                0
            } else {
                lines@[i - 1].1 as int
            }) <= brace_depth <= (if i == 0 {
                0
            } else {
                lines@[i - 1].1 as int
            }),
        decreases lines.len() - i,
    {
        let (a, b) = lines[i];
        proof {
            assert(spans_view(lines@)[i as int] == (a as int, b as int));
            if i > 0 {
                assert(spans_view(lines@)[i - 1] == (lines@[i - 1].0 as int, lines@[i - 1].1 as int));
            }
            lemma_count_bounds(text@, a as int, b as int, '{');
            lemma_count_bounds(text@, a as int, b as int, '}');
        }
        let (ts, te) = trim_span(&text, a, b);
        if starts_with_at(&text, ts, te, &define) {
        } else if starts_with_at(&text, ts, te, &import) {
            let open_braces = count_char(&text, a, b, '{');
            let close_braces = count_char(&text, a, b, '}');
            brace_depth = open_braces as i128 - close_braces as i128;
            if brace_depth > 0 {
                in_braced_import = true;
            }
        } else if in_braced_import {
            let open_braces = count_char(&text, a, b, '{');
            let close_braces = count_char(&text, a, b, '}');
            brace_depth = brace_depth + open_braces as i128 - close_braces as i128;
            if brace_depth <= 0 {
                in_braced_import = false;
            }
        } else {
            let ghost before = kept;
            if !first {
                output.append("\n");
            }
            output.append(source.substring_char(a, b));
            first = false;
            proof {
                reveal_strlit("\n");
                assert("\n"@ =~= seq!['\n']);
                kept = kept.push((a as int, b as int));
                assert(kept.drop_last() =~= before);
                assert(output@ =~= joined(text@, kept));
            }
        }
        i += 1;
    }
    output
}

/// Selects the modules called `name`.
pub open spec fn module_named(name: Seq<char>) -> spec_fn(ShaderModule) -> bool {
    |module: ShaderModule| module.name@ == name
}

/// The modules that `paths[i..]` name, in order, appended to `found`. A
/// path that names no module is passed over; where several modules share a
/// name, the first one is meant.
pub open spec fn scan_edges(
    modules: Seq<ShaderModule>,
    paths: Seq<Seq<char>>,
    i: int,
    found: Seq<usize>,
) -> Seq<usize>
    decreases paths.len() - i,
{
    if i < 0 || i >= paths.len() {
        found
    } else {
        let at = first_match(modules, module_named(paths[i]));
        if at < modules.len() {
            scan_edges(modules, paths, i + 1, found.push(at as usize))
        } else {
            scan_edges(modules, paths, i + 1, found)
        }
    }
}

/// The modules that the fragment `source` imports, one per import directive
/// that names a module, in line order.
pub open spec fn edges_of(modules: Seq<ShaderModule>, source: Seq<char>) -> Seq<usize> {
    scan_edges(modules, import_paths_of(source), 0, Seq::empty())
}

/// The import graph of `modules`: for each module, the modules it imports.
pub open spec fn import_graph(modules: Seq<ShaderModule>) -> Seq<Seq<usize>> {
    Seq::new(modules.len(), |i: int| edges_of(modules, modules[i].source@))
}

/// The modules below `n` that are not on `stack`.
pub open spec fn free_set(stack: Seq<usize>, n: int) -> Set<int> {
    Set::new(|k: int| 0 <= k < n && k <= usize::MAX && !stack.contains(k as usize))
}

/// How many modules below `n` are not on `stack`: the depth the walk can
/// still descend.
pub open spec fn free_count(stack: Seq<usize>, n: int) -> nat {
    free_set(stack, n).len()
}

/// Pushing a module that is not on the stack leaves one free module fewer.
pub proof fn lemma_free_push(stack: Seq<usize>, n: int, y: usize)
    requires
        y < n,
        !stack.contains(y),
    ensures
        free_count(stack.push(y), n) + 1 == free_count(stack, n),
{
    let before = free_set(stack, n);
    let after = free_set(stack.push(y), n);
    lemma_int_range(0, n);
    lemma_len_subset(before, set_int_range(0, n));
    assert(before.contains(y as int));
    assert forall|k: int| after.contains(k) <==> before.remove(y as int).contains(k) by {
        if 0 <= k < n && k <= usize::MAX {
            if stack.push(y).contains(k as usize) {
                let i = choose|i: int| 0 <= i < stack.push(y).len() && stack.push(y)[i] == k as usize;
                if i < stack.len() {
                    assert(stack[i] == k as usize);
                }
            }
            if stack.contains(k as usize) {
                let i = choose|i: int| 0 <= i < stack.len() && stack[i] == k as usize;
                assert(stack.push(y)[i] == k as usize);
            }
            if k == y {
                assert(stack.push(y)[stack.len() as int] == y);
            }
        }
    }
    assert(after =~= before.remove(y as int));
    broadcast use vstd::set::group_set_axioms;

}

/// The post-order walk of the import graph: the modules `imported`
/// followed by every module that `targets[i..]` lead to, each after the
/// modules it imports.
///
/// A target is passed over if it is already listed or is on `stack`, the
/// chain of modules whose imports are being walked; this breaks cycles.
/// Otherwise its own imports are walked with the target on the stack, and
/// the target is listed after them.
pub open spec fn walk(
    graph: Seq<Seq<usize>>,
    targets: Seq<usize>,
    i: int,
    imported: Seq<usize>,
    stack: Seq<usize>,
) -> Seq<usize>
    decreases free_count(stack, graph.len() as int), targets.len() - i,
{
    if i < 0 || i >= targets.len() {
        imported
    } else {
        let y = targets[i];
        if y >= graph.len() || imported.contains(y) || stack.contains(y) {
            walk(graph, targets, i + 1, imported, stack)
        } else {
            proof {
                lemma_free_push(stack, graph.len() as int, y);
            }
            let inner = walk(graph, graph[y as int], 0, imported, stack.push(y));
            walk(graph, targets, i + 1, inner.push(y), stack)
        }
    }
}

/// The directive-free sources of the modules `order`, each followed by an
/// empty line.
pub open spec fn dependencies_text(modules: Seq<ShaderModule>, order: Seq<usize>) -> Seq<char>
    decreases order.len(),
{
    if order.len() == 0 {
        Seq::empty()
    } else {
        dependencies_text(modules, order.drop_last()) + stripped(
            modules[order.last() as int].source@,
        ) + seq!['\n', '\n']
    }
}

/// Selects the modules whose text is `source`.
pub open spec fn holds_source(source: Seq<char>) -> spec_fn(ShaderModule) -> bool {
    |module: ShaderModule| module.source@ == source
}

/// The index of the root among `modules`: the first module whose text is
/// `source`, or the number of modules if the root is not one of them.
pub open spec fn root_of(modules: Seq<ShaderModule>, source: Seq<char>) -> int {
    first_match(modules, holds_source(source))
}

/// The stack the walk starts with: the root, if it is one of `modules`, so
/// that an import that leads back to the root is passed over.
pub open spec fn root_stack(modules: Seq<ShaderModule>, source: Seq<char>) -> Seq<usize> {
    if root_of(modules, source) < modules.len() && root_of(modules, source) <= usize::MAX {
        seq![root_of(modules, source) as usize]
    } else {
        Seq::empty()
    }
}

/// The order in which the composed source lists the modules that `source`
/// depends on: the walk of the root's imports, begun with the root itself
/// on the stack.
pub open spec fn import_order(modules: Seq<ShaderModule>, source: Seq<char>) -> Seq<usize> {
    walk(
        import_graph(modules),
        edges_of(modules, source),
        0,
        Seq::empty(),
        root_stack(modules, source),
    )
}

/// The composed source of the root fragment `source`: its dependencies in
/// walk order, then the root itself, once and last, all without
/// directives.
pub open spec fn composed(modules: Seq<ShaderModule>, source: Seq<char>) -> Seq<char> {
    dependencies_text(modules, import_order(modules, source)) + stripped(source)
}

/// The views of the edge lists of a graph.
pub open spec fn graph_view(graph: Seq<Vec<usize>>) -> Seq<Seq<usize>> {
    Seq::new(graph.len(), |i: int| graph[i]@)
}

/// Whether `list` holds `x`.
pub fn holds(list: &Vec<usize>, x: usize) -> (found: bool)
    ensures
        found == list@.contains(x),
{
    let mut i: usize = 0;
    while i < list.len()
        invariant
            i <= list.len(),
            forall|k: int| 0 <= k < i ==> list@[k] != x,
        decreases list.len() - i,
    {
        if list[i] == x {
            return true;
        }
        i += 1;
    }
    false
}

/// The index of the first module called `name`, or the number of modules
/// if there is none.
pub fn resolve(modules: &Vec<ShaderModule>, name: &str) -> (at: usize)
    ensures
        at == first_match(modules@, module_named(name@)),
        at <= modules@.len(),
{
    let mut i: usize = 0;
    while i < modules.len()
        invariant
            i <= modules.len(),
            forall|k: int| 0 <= k < i ==> !module_named(name@)(#[trigger] modules@[k]),
        decreases modules.len() - i,
    {
        if crate::text::same_text(modules[i].name.as_str(), name) {
            proof {
                lemma_first_match_is(modules@, module_named(name@), i as int);
            }
            return i;
        }
        i += 1;
    }
    proof {
        lemma_first_match_is(modules@, module_named(name@), i as int);
    }
    i
}

/// The index of the first module whose text is `source`, or the number of
/// modules if there is none.
pub fn find_root(modules: &Vec<ShaderModule>, source: &str) -> (at: usize)
    ensures
        at == root_of(modules@, source@),
        at <= modules@.len(),
{
    let mut i: usize = 0;
    while i < modules.len()
        invariant
            i <= modules.len(),
            forall|k: int| 0 <= k < i ==> !holds_source(source@)(#[trigger] modules@[k]),
        decreases modules.len() - i,
    {
        if crate::text::same_text(modules[i].source.as_str(), source) {
            proof {
                lemma_first_match_is(modules@, holds_source(source@), i as int);
            }
            return i;
        }
        i += 1;
    }
    proof {
        lemma_first_match_is(modules@, holds_source(source@), i as int);
    }
    i
}

/// The modules that the fragment `source` imports.
pub fn resolve_imports(modules: &Vec<ShaderModule>, source: &str) -> (edges: Vec<usize>)
    ensures
        edges@ == edges_of(modules@, source@),
{
    let paths = import_paths(source);
    let ghost wanted = import_paths_of(source@);
    let mut edges: Vec<usize> = Vec::new();
    let mut i: usize = 0;
    while i < paths.len()
        invariant
            i <= paths.len(),
            wanted == import_paths_of(source@),
            paths@.len() == wanted.len(),
            forall|k: int| 0 <= k < paths@.len() ==> (#[trigger] paths@[k])@ == wanted[k],
            scan_edges(modules@, wanted, i as int, edges@) == edges_of(modules@, source@),
        decreases paths.len() - i,
    {
        let at = resolve(modules, paths[i].as_str());
        if at < modules.len() {
            edges.push(at);
        }
        i += 1;
    }
    edges
}

/// Walks the imports `targets` depth-first and appends to `imported`, in
/// post-order, every module they lead to that is neither listed nor on
/// `stack`. Terminates on every graph, cyclic or not.
pub fn collect_imports(
    graph: &Vec<Vec<usize>>,
    targets: &Vec<usize>,
    imported: &mut Vec<usize>,
    stack: &mut Vec<usize>,
)
    ensures
        final(imported)@ == walk(graph_view(graph@), targets@, 0, old(imported)@, old(stack)@),
        final(stack)@ == old(stack)@,
    decreases free_count(old(stack)@, graph@.len() as int),
{
    let ghost links = graph_view(graph@);
    let mut i: usize = 0;
    while i < targets.len()
        invariant
            i <= targets.len(),
            links == graph_view(graph@),
            stack@ == old(stack)@,
            walk(links, targets@, i as int, imported@, stack@) == walk(
                links,
                targets@,
                0,
                old(imported)@,
                old(stack)@,
            ),
        decreases targets.len() - i,
    {
        let y = targets[i];
        if y >= graph.len() || holds(imported, y) || holds(stack, y) {
        } else {
            proof {
                lemma_free_push(stack@, graph@.len() as int, y);
                assert(links[y as int] == graph@[y as int]@);
            }
            let ghost base = stack@;
            stack.push(y);
            collect_imports(graph, &graph[y], imported, stack);
            stack.pop();
            assert(stack@ =~= base);
            imported.push(y);
        }
        i += 1;
    }
}

/// Composes the root fragment `source` with the modules it imports,
/// directly or not: every dependency without its directives and followed by
/// an empty line, in post-order of the import walk, then the root itself
/// without its directives. The root is the first of `modules` whose text
/// is `source`, if there is one; an import that leads back to it is passed
/// over like any other import that closes a cycle, so the root stands once,
/// at the end.
pub fn compose_shader(source: &str, modules: &Vec<ShaderModule>) -> (output: String)
    ensures
        output@ == composed(modules@, source@),
{
    let mut graph: Vec<Vec<usize>> = Vec::new();
    let mut m: usize = 0;
    while m < modules.len()
        invariant
            m <= modules.len(),
            graph@.len() == m,
            graph_view(graph@) == import_graph(modules@).subrange(0, m as int),
        decreases modules.len() - m,
    {
        let ghost before = graph@;
        let edges = resolve_imports(modules, modules[m].source.as_str());
        graph.push(edges);
        m += 1;
        proof {
            let wanted = import_graph(modules@).subrange(0, m as int);
            assert forall|j: int| 0 <= j < m implies graph_view(graph@)[j] == wanted[j] by {
                if j < m - 1 {
                    assert(graph@[j] == before[j]);
                    assert(graph_view(before)[j] == import_graph(modules@).subrange(
                        0,
                        m - 1,
                    )[j]);
                }
            }
            assert(graph_view(graph@) =~= wanted);
        }
    }
    assert(import_graph(modules@).subrange(0, modules@.len() as int) =~= import_graph(modules@));

    let targets = resolve_imports(modules, source);
    let mut imported_modules: Vec<usize> = Vec::new();
    let mut stack: Vec<usize> = Vec::new();
    let root = find_root(modules, source);
    if root < modules.len() {
        stack.push(root);
    }
    assert(stack@ =~= root_stack(modules@, source@));
    collect_imports(&graph, &targets, &mut imported_modules, &mut stack);

    let mut output = String::new();
    let mut k: usize = 0;
    proof {
        assert(imported_modules@.subrange(0, 0) =~= Seq::<usize>::empty());
        lemma_order_in_range(
            import_graph(modules@),
            targets@,
            0,
            Seq::empty(),
            root_stack(modules@, source@),
        );
    }
    while k < imported_modules.len()
        invariant
            k <= imported_modules.len(),
            imported_modules@ == import_order(modules@, source@),
            forall|j: int|
                0 <= j < imported_modules@.len() ==> (#[trigger] imported_modules@[j])
                    < modules@.len(),
            output@ == dependencies_text(modules@, imported_modules@.subrange(0, k as int)),
        decreases imported_modules.len() - k,
    {
        let module_src = strip_directives(modules[imported_modules[k]].source.as_str());
        output.append(module_src.as_str());
        output.append("\n\n");
        proof {
            reveal_strlit("\n\n");
            assert("\n\n"@ =~= seq!['\n', '\n']);
            let next = imported_modules@.subrange(0, k + 1);
            assert(next.drop_last() =~= imported_modules@.subrange(0, k as int));
            assert(next.last() == imported_modules@[k as int]);
        }
        k += 1;
    }
    assert(imported_modules@.subrange(0, imported_modules@.len() as int) =~= imported_modules@);
    let main_src = strip_directives(source);
    output.append(main_src.as_str());
    output
}

/// Whether every entry of `list` is below `n`.
pub open spec fn all_below(list: Seq<usize>, n: int) -> bool {
    forall|j: int| 0 <= j < list.len() ==> (#[trigger] list[j]) < n
}

/// The walk lists only modules of the graph.
pub proof fn lemma_order_in_range(
    graph: Seq<Seq<usize>>,
    targets: Seq<usize>,
    i: int,
    imported: Seq<usize>,
    stack: Seq<usize>,
)
    requires
        all_below(imported, graph.len() as int),
    ensures
        all_below(walk(graph, targets, i, imported, stack), graph.len() as int),
    decreases free_count(stack, graph.len() as int), targets.len() - i,
{
    if i < 0 || i >= targets.len() {
    } else {
        let y = targets[i];
        if y >= graph.len() || imported.contains(y) || stack.contains(y) {
            lemma_order_in_range(graph, targets, i + 1, imported, stack);
        } else {
            lemma_free_push(stack, graph.len() as int, y);
            lemma_order_in_range(graph, graph[y as int], 0, imported, stack.push(y));
            let inner = walk(graph, graph[y as int], 0, imported, stack.push(y));
            lemma_order_in_range(graph, targets, i + 1, inner.push(y), stack);
        }
    }
}

} // verus!
