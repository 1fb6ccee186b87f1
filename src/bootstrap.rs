//! What bootstrap reads: the names of the enabled plugins, from the startup
//! script, and the names of the installed plugins, from the file names in
//! the plugin directory.

use vstd::prelude::*;
use vstd::string::{StrSliceExecFns, StringExecFns};

use crate::text::chars_of;

verus! {

/// The lines of `s`, split at each `'\n'`; text after the last one (possibly
/// empty) is the last line.
pub open spec fn lines_of(s: Seq<char>) -> Seq<Seq<char>>
    decreases s.len(),
{
    if s.len() == 0 {
        seq![Seq::empty()]
    } else {
        let prev = lines_of(s.drop_last());
        if s.last() == '\n' {
            prev.push(Seq::empty())
        } else {
            prev.update(prev.len() - 1, prev.last().push(s.last()))
        }
    }
}

/// The text that marks a line of the startup script as enabling a plugin.
pub open spec fn import_prefix() -> Seq<char> {
    "import plugins."@
}

/// The plugin names that `lines` enable, in order: what follows the prefix
/// on each line that starts with it.
pub open spec fn imported_names(lines: Seq<Seq<char>>) -> Seq<Seq<char>>
    decreases lines.len(),
{
    if lines.len() == 0 {
        Seq::empty()
    } else {
        let prev = imported_names(lines.drop_last());
        let line = lines.last();
        if import_prefix().is_prefix_of(line) {
            prev.push(line.skip(import_prefix().len() as int))
        } else {
            prev
        }
    }
}

/// The names of the plugins that the startup script `content` enables.
pub open spec fn enabled_names(content: Seq<char>) -> Seq<Seq<char>> {
    imported_names(lines_of(content))
}

proof fn lemma_lines_of_len(s: Seq<char>)
    ensures
        lines_of(s).len() >= 1,
    decreases s.len(),
{
    if s.len() > 0 {
        lemma_lines_of_len(s.drop_last());
    }
}

/// Whether `x[start..end]` starts with `prefix`.
fn starts_with_at(x: &Vec<char>, start: usize, end: usize, prefix: &Vec<char>) -> (r: bool)
    requires
        start <= end <= x.len(),
    ensures
        r == prefix@.is_prefix_of(x@.subrange(start as int, end as int)),
{
    if end - start < prefix.len() {
        return false;
    }
    let mut k: usize = 0;
    while k < prefix.len()
        invariant
            start <= end <= x.len(),
            prefix.len() <= end - start,
            k <= prefix.len(),
            forall|m: int| 0 <= m < k ==> prefix@[m] == x@[start + m],
        decreases prefix.len() - k,
    {
        if prefix[k] != x[start + k] {
            assert(prefix@[k as int] != x@.subrange(start as int, end as int)[k as int]);
            return false;
        }
        k = k + 1;
    }
    assert(prefix@ =~= x@.subrange(start as int, end as int).take(prefix.len() as int));
    true
}

/// The names of the plugins that the startup script `content` enables, in
/// the order of their lines: each line of the form `import plugins.<name>`
/// gives `<name>`.
pub fn enabled_plugins(content: &str) -> (r: Vec<String>)
    ensures
        r.deep_view() == enabled_names(content@),
{
    let x = chars_of(content);
    let prefix = chars_of("import plugins.");
    let ghost s = content@;
    let mut names: Vec<String> = Vec::new();
    let mut start: usize = 0;
    let mut i: usize = 0;
    assert(s.take(0) =~= Seq::<char>::empty());
    assert(s.subrange(0, 0) =~= Seq::<char>::empty());
    assert(lines_of(s.take(0)) =~= seq![s.subrange(0, 0)]);
    while i < x.len()
        invariant
            x@ == s,
            s == content@,
            prefix@ == import_prefix(),
            start <= i <= x.len(),
            lines_of(s.take(i as int)).len() >= 1,
            lines_of(s.take(i as int)).last() == s.subrange(start as int, i as int),
            names.deep_view() == imported_names(lines_of(s.take(i as int)).drop_last()),
        decreases x.len() - i,
    {
        let ghost before = lines_of(s.take(i as int));
        assert(s.take(i + 1).drop_last() =~= s.take(i as int));
        assert(s.take(i + 1).last() == x@[i as int]);
        if x[i] == '\n' {
            let ghost line = s.subrange(start as int, i as int);
            if starts_with_at(&x, start, i, &prefix) {
                let name = String::from_str(content.substring_char(start + prefix.len(), i));
                assert(name@ =~= line.skip(import_prefix().len() as int));
                names.push(name);
            }
            assert(lines_of(s.take(i + 1)).drop_last() =~= before);
            assert(before =~= before.drop_last().push(line));
            assert(names.deep_view() =~= imported_names(lines_of(s.take(i + 1)).drop_last()));
            start = i + 1;
        } else {
            assert(lines_of(s.take(i + 1)).drop_last() =~= before.drop_last());
            assert(s.subrange(start as int, i + 1) =~= s.subrange(start as int, i as int).push(
                x@[i as int],
            ));
        }
        i = i + 1;
    }
    assert(s.take(s.len() as int) =~= s);
    let ghost all = lines_of(s);
    let ghost line = s.subrange(start as int, i as int);
    if starts_with_at(&x, start, i, &prefix) {
        let name = String::from_str(content.substring_char(start + prefix.len(), i));
        assert(name@ =~= line.skip(import_prefix().len() as int));
        names.push(name);
    }
    assert(all =~= all.drop_last().push(line));
    assert(names.deep_view() =~= imported_names(all));
    names
}

/// The plugin name that the file name `file_name` carries: `Some(stem)` where
/// it reads `<stem>.<extension>` with a non-empty stem (and the extension
/// holds no dot, as a path's extension never does).
pub open spec fn stem_for_extension(file_name: Seq<char>, extension: Seq<char>) -> Option<
    Seq<char>,
> {
    let cut = file_name.len() - extension.len() - 1;
    if file_name.len() > extension.len() + 1 && file_name.skip(cut + 1) == extension
        && file_name[cut] == '.' && !extension.contains('.') {
        Some(file_name.take(cut))
    } else {
        None
    }
}

/// The plugin name in `file_name`, if it names a plugin file: the stem of
/// `<stem>.<extension>`.
pub fn plugin_name_of(file_name: &str, extension: &str) -> (r: Option<String>)
    ensures
        r.deep_view() == stem_for_extension(file_name@, extension@),
{
    let x = chars_of(file_name);
    let e = chars_of(extension);
    let ghost f = file_name@;
    let ghost ext = extension@;
    let mut k: usize = 0;
    while k < e.len()
        invariant
            e@ == ext,
            ext == extension@,
            f == file_name@,
            k <= e.len(),
            forall|m: int| 0 <= m < k ==> e@[m] != '.',
        decreases e.len() - k,
    {
        if e[k] == '.' {
            assert(ext.contains('.')) by {
                assert(ext[k as int] == '.');
            }
            assert(stem_for_extension(f, ext) is None);
            return None;
        }
        k = k + 1;
    }
    assert(!ext.contains('.'));
    if x.len() <= e.len() || x.len() - e.len() <= 1 {
        return None;
    }
    let cut = x.len() - e.len() - 1;
    if x[cut] != '.' {
        return None;
    }
    let mut j: usize = 0;
    while j < e.len()
        invariant
            e@ == ext,
            x@ == f,
            ext == extension@,
            f == file_name@,
            !ext.contains('.'),
            cut == x.len() - e.len() - 1,
            j <= e.len(),
            forall|m: int| 0 <= m < j ==> e@[m] == x@[cut + 1 + m],
        decreases e.len() - j,
    {
        if e[j] != x[cut + 1 + j] {
            assert(f.skip(cut + 1)[j as int] != ext[j as int]);
            assert(f.skip(cut + 1) != ext);
            assert(stem_for_extension(f, ext) is None);
            return None;
        }
        j = j + 1;
    }
    assert(f.skip(cut + 1) =~= ext);
    let stem = String::from_str(file_name.substring_char(0, cut));
    assert(stem@ =~= f.take(cut as int));
    Some(stem)
}

/// The plugin names among the file names `file_names`, in order.
pub open spec fn stems_for_extension(file_names: Seq<Seq<char>>, extension: Seq<char>) -> Seq<
    Seq<char>,
>
    decreases file_names.len(),
{
    if file_names.len() == 0 {
        Seq::empty()
    } else {
        let prev = stems_for_extension(file_names.drop_last(), extension);
        match stem_for_extension(file_names.last(), extension) {
            Some(stem) => prev.push(stem),
            None => prev,
        }
    }
}

/// The names of the plugins whose files are among `file_names`: each
/// `<name>.<extension>` gives `<name>`.
pub fn installed_plugin_names(file_names: &Vec<String>, extension: &str) -> (r: Vec<String>)
    ensures
        r.deep_view() == stems_for_extension(file_names.deep_view(), extension@),
{
    let ghost all = file_names.deep_view();
    let mut names: Vec<String> = Vec::new();
    let mut i: usize = 0;
    assert(all.take(0) =~= Seq::<Seq<char>>::empty());
    while i < file_names.len()
        invariant
            all == file_names.deep_view(),
            i <= all.len(),
            names.deep_view() == stems_for_extension(all.take(i as int), extension@),
        decreases all.len() - i,
    {
        assert(all.take(i + 1).drop_last() =~= all.take(i as int));
        assert(all.take(i + 1).last() == file_names[i as int]@);
        let found = plugin_name_of(file_names[i].as_str(), extension);
        match found {
            Some(name) => {
                names.push(name);
            },
            None => {},
        }
        assert(names.deep_view() =~= stems_for_extension(all.take(i + 1), extension@));
        i = i + 1;
    }
    assert(all.take(all.len() as int) =~= all);
    names
}

} // verus!
