//! The driver library that a build for Windows ships: which file of the
//! published archive it is, and what that file holds.

use vstd::prelude::*;
use vstd::slice::slice_subrange;
use vstd::string::*;

use crate::archive;
use crate::archive::EntryView;
use crate::text;

verus! {

/// The build is for Windows.
pub open spec fn is_windows_target(target: Seq<char>) -> bool {
    text::has_part(target, "windows"@)
}

/// Whether the build is for Windows.
pub fn needs_driver(target: &str) -> (r: bool)
    ensures
        r == is_windows_target(target@),
{
    let cs = text::to_chars(target);
    text::contains_text(cs.as_slice(), "windows")
}

/// The folder of the archive for a target.
pub open spec fn folder_of(target: Seq<char>) -> Seq<char> {
    if text::has_prefix(target, "aarch64"@) {
        "arm64"@
    } else if text::has_prefix(target, "thumbv7a"@) {
        "arm"@
    } else if text::has_prefix(target, "i686"@) || text::has_prefix(target, "i586"@) {
        "x86"@
    } else {
        "amd64"@
    }
}

/// Whether the target begins with the text.
fn begins_with(target: &[char], start: &str) -> (r: bool)
    ensures
        r == text::has_prefix(target@, start@),
{
    let wanted = text::to_chars(start);
    text::starts_with(target, wanted.as_slice())
}

/// The folder of the archive for a target.
pub fn arch_folder(target: &str) -> (r: String)
    ensures
        r@ == folder_of(target@),
{
    let cs = text::to_chars(target);
    let t = cs.as_slice();
    if begins_with(t, "aarch64") {
        "arm64".to_string()
    } else if begins_with(t, "thumbv7a") {
        "arm".to_string()
    } else if begins_with(t, "i686") || begins_with(t, "i586") {
        "x86".to_string()
    } else {
        "amd64".to_string()
    }
}

/// How the path of the library in the archive ends.
pub open spec fn library_path(target: Seq<char>) -> Seq<char> {
    "bin/"@ + folder_of(target) + "/wintun.dll"@
}

/// The path with slashes only.
pub open spec fn with_slashes(path: Seq<char>) -> Seq<char> {
    path.map_values(
        |c: char|
            if c == '\\' {
                '/'
            } else {
                c
            },
    )
}

/// `s` ends with `end`.
pub open spec fn has_suffix(s: Seq<char>, end: Seq<char>) -> bool {
    text::occurs_at(s, end, s.len() - end.len())
}

/// The file of the archive is the library for the target.
pub open spec fn is_library(name: Seq<char>, target: Seq<char>) -> bool {
    has_suffix(with_slashes(name), library_path(target))
}

/// The path with slashes only.
fn put_slashes(path: &[char]) -> (r: Vec<char>)
    ensures
        r@ == with_slashes(path@),
{
    let ghost wanted = with_slashes(path@);
    let mut out: Vec<char> = Vec::new();
    let mut i: usize = 0;
    while i < path.len()
        invariant
            wanted == with_slashes(path@),
            i <= path@.len(),
            out@ =~= wanted.take(i as int),
        decreases path.len() - i,
    {
        if path[i] == '\\' {
            out.push('/');
        } else {
            out.push(path[i]);
        }
        i = i + 1;
    }
    proof {
        assert(wanted.take(i as int) =~= wanted);
    }
    out
}

/// Whether `s` ends with `end`.
fn ends_with(s: &[char], end: &[char]) -> (r: bool)
    ensures
        r == has_suffix(s@, end@),
{
    if s.len() < end.len() {
        return false;
    }
    let from: usize = s.len() - end.len();
    text::same(slice_subrange(s, from, s.len()), end)
}

/// What is said when the archive holds no library for the target.
pub open spec fn no_library(target: Seq<char>) -> Seq<char> {
    "entry */"@ + library_path(target) + " non trovata nello zip Wintun"@
}

/// The place of the library for the target among the names from `from` on:
/// the first that is it. A name before it that cannot be had ends the search.
pub open spec fn library_from(
    names: Seq<Result<Seq<char>, Seq<char>>>,
    target: Seq<char>,
    from: int,
) -> Result<int, Seq<char>>
    decreases names.len() - from,
{
    if from < 0 || from >= names.len() {
        Err(no_library(target))
    } else {
        match names[from] {
            Err(m) => Err(m),
            Ok(name) => if is_library(name, target) {
                Ok(from)
            } else {
                library_from(names, target, from + 1)
            },
        }
    }
}

/// A name that was asked for.
pub open spec fn name_view(name: Result<String, String>) -> Result<Seq<char>, Seq<char>> {
    match name {
        Ok(s) => Ok(s@),
        Err(m) => Err(m@),
    }
}

/// The names that were asked for.
pub open spec fn name_views(names: Seq<Result<String, String>>) -> Seq<
    Result<Seq<char>, Seq<char>>,
> {
    names.map_values(|n: Result<String, String>| name_view(n))
}

/// The names of the entries.
pub open spec fn entry_names(entries: Seq<EntryView>) -> Seq<Result<Seq<char>, Seq<char>>> {
    entries.map_values(|e: EntryView| e.name)
}

/// The bytes of the library for the target among the entries, or why they
/// cannot be had.
pub open spec fn library_in(entries: Seq<EntryView>, target: Seq<char>) -> Result<
    Seq<u8>,
    Seq<char>,
> {
    match library_from(entry_names(entries), target, 0) {
        Ok(at) => entries[at].bytes,
        Err(m) => Err(m),
    }
}

/// What is taken out of an archive for the target.
pub open spec fn library_of(
    archive: Result<Seq<EntryView>, Seq<char>>,
    target: Seq<char>,
) -> Result<Seq<u8>, Seq<char>> {
    match archive {
        Ok(entries) => library_in(entries, target),
        Err(m) => Err(m),
    }
}

/// The place of the library for a target among the names of the entries.
pub fn find_library(names: &Vec<Result<String, String>>, target: &str) -> (r: Result<
    usize,
    String,
>)
    ensures
        match r {
            Ok(i) => i < names@.len() && library_from(name_views(names@), target@, 0) == Ok::<
                int,
                Seq<char>,
            >(i as int),
            Err(m) => library_from(name_views(names@), target@, 0) == Err::<int, Seq<char>>(m@),
        },
{
    let path = text::cat3("bin/", arch_folder(target).as_str(), "/wintun.dll");
    let end = text::to_chars(path.as_str());
    let ghost all = name_views(names@);
    let mut i: usize = 0;
    while i < names.len()
        invariant
            end@ == library_path(target@),
            all == name_views(names@),
            i <= names@.len(),
            library_from(all, target@, 0) == library_from(all, target@, i as int),
        decreases names.len() - i,
    {
        proof {
            assert(all[i as int] == name_view(names@[i as int]));
        }
        match &names[i] {
            Err(m) => {
                return Err(m.clone());
            },
            Ok(s) => {
                let cs = text::to_chars(s.as_str());
                let name = put_slashes(cs.as_slice());
                if ends_with(name.as_slice(), end.as_slice()) {
                    return Ok(i);
                }
            },
        }
        i = i + 1;
    }
    Err(text::cat3("entry */", path.as_str(), " non trovata nello zip Wintun"))
}

/// The library for a target, taken out of the bytes of the published archive.
pub fn library_from_archive(body: &[u8], target: &str) -> (r: Result<Vec<u8>, String>)
    ensures
        match r {
            Ok(b) => library_of(archive::archive_in(body@), target@) == Ok::<Seq<u8>, Seq<char>>(
                b@,
            ),
            Err(m) => library_of(archive::archive_in(body@), target@) == Err::<
                Seq<u8>,
                Seq<char>,
            >(m@),
        },
{
    let mut opened = match archive::open_archive(body) {
        Ok(a) => a,
        Err(m) => {
            return Err(m);
        },
    };
    let ghost entries = archive::entries_of(opened);
    let count: usize = archive::entry_count(&opened);
    let mut names: Vec<Result<String, String>> = Vec::new();
    let mut i: usize = 0;
    proof {
        assert(name_views(names@) =~= entry_names(entries).take(0));
    }
    while i < count
        invariant
            entries == archive::entries_of(opened),
            count == entries.len(),
            i <= count,
            name_views(names@) == entry_names(entries).take(i as int),
        decreases count - i,
    {
        let ghost had = name_views(names@);
        let name = archive::entry_name(&mut opened, i);
        names.push(name);
        proof {
            assert(name_views(names@) =~= had.push(name_view(name)));
            assert(entry_names(entries).take(i + 1) =~= had.push(entries[i as int].name));
        }
        i = i + 1;
    }
    proof {
        assert(name_views(names@) =~= entry_names(entries));
        assert(name_views(names@).len() == names@.len());
    }
    match find_library(&names, target) {
        Ok(at) => archive::entry_bytes(&mut opened, at),
        Err(m) => Err(m),
    }
}

/// The PowerShell script that downloads an address to a file.
pub open spec fn fetch_script(url: Seq<char>, file: Seq<char>) -> Seq<char> {
    "$ProgressPreference='SilentlyContinue'; Invoke-WebRequest -Uri '"@ + url
        + "' -UseBasicParsing -OutFile '"@ + file + "'"@
}

/// The PowerShell script that downloads an address to a file.
pub fn download_script(url: &str, file: &str) -> (r: String)
    ensures
        r@ == fetch_script(url@, file@),
{
    text::cat5(
        "$ProgressPreference='SilentlyContinue'; Invoke-WebRequest -Uri '",
        url,
        "' -UseBasicParsing -OutFile '",
        file,
        "'",
    )
}

// ---------------------------------------------------------------------------
// Laws
// ---------------------------------------------------------------------------

/// What is found is the library for the target, and no entry before it is.
pub proof fn law_library_is_the_first(
    names: Seq<Result<Seq<char>, Seq<char>>>,
    target: Seq<char>,
)
    ensures
        match library_from(names, target, 0) {
            Ok(at) => 0 <= at < names.len() && (names[at] matches Ok(n) && is_library(n, target))
                && forall|k: int|
                0 <= k < at ==> (#[trigger] names[k] matches Ok(n) && !is_library(n, target)),
            Err(m) => forall|k: int|
                0 <= k < names.len() && (#[trigger] names[k] matches Ok(n) && is_library(
                    n,
                    target,
                )) ==> exists|j: int| 0 <= j < k && #[trigger] names[j] == Err::<
                    Seq<char>,
                    Seq<char>,
                >(m),
        },
{
    lemma_library_from(names, target, 0);
}

/// What the search from `from` on finds.
proof fn lemma_library_from(
    names: Seq<Result<Seq<char>, Seq<char>>>,
    target: Seq<char>,
    from: int,
)
    requires
        0 <= from,
    ensures
        match library_from(names, target, from) {
            Ok(at) => from <= at < names.len() && (names[at] matches Ok(n) && is_library(
                n,
                target,
            )) && forall|k: int|
                from <= k < at ==> (#[trigger] names[k] matches Ok(n) && !is_library(n, target)),
            Err(m) => forall|k: int|
                from <= k < names.len() && (#[trigger] names[k] matches Ok(n) && is_library(
                    n,
                    target,
                )) ==> exists|j: int| from <= j < k && #[trigger] names[j] == Err::<
                    Seq<char>,
                    Seq<char>,
                >(m),
        },
    decreases names.len() - from,
{
    if from < names.len() {
        if let Ok(name) = names[from] {
            if !is_library(name, target) {
                lemma_library_from(names, target, from + 1);
            }
        }
    }
}

/// The bytes that are taken out of an archive are those of the library for the
/// target; an archive that cannot be read, and one without the library, gives
/// none.
pub proof fn law_library_is_taken_out(entries: Seq<EntryView>, target: Seq<char>, m: Seq<char>)
    ensures
        library_of(Err(m), target) == Err::<Seq<u8>, Seq<char>>(m),
        library_of(Ok(entries), target) matches Ok(b) ==> exists|i: int|
            0 <= i < entries.len() && (#[trigger] entries[i]).bytes == Ok::<Seq<u8>, Seq<char>>(b)
                && (entries[i].name matches Ok(n) && is_library(n, target)) && forall|k: int|
                0 <= k < i ==> ((#[trigger] entries[k]).name matches Ok(n) && !is_library(
                    n,
                    target,
                )),
        (forall|k: int|
            0 <= k < entries.len() ==> ((#[trigger] entries[k]).name matches Ok(n) && !is_library(
                n,
                target,
            ))) ==> library_of(Ok(entries), target) == Err::<Seq<u8>, Seq<char>>(
            "entry */bin/"@ + folder_of(target) + "/wintun.dll non trovata nello zip Wintun"@,
        ),
{
    reveal_strlit("entry */");
    reveal_strlit("bin/");
    reveal_strlit("entry */bin/");
    reveal_strlit("/wintun.dll");
    reveal_strlit(" non trovata nello zip Wintun");
    reveal_strlit("/wintun.dll non trovata nello zip Wintun");
    assert(no_library(target) =~= "entry */bin/"@ + folder_of(target)
        + "/wintun.dll non trovata nello zip Wintun"@);
    let names = entry_names(entries);
    lemma_library_from(names, target, 0);
    match library_from(names, target, 0) {
        Ok(at) => {
            assert(entries[at].name == names[at]);
            assert forall|k: int| 0 <= k < at implies ((#[trigger] entries[k]).name matches Ok(n)
                && !is_library(n, target)) by {
                assert(names[k] == entries[k].name);
            }
        },
        Err(_) => {},
    }
    if forall|k: int|
        0 <= k < entries.len() ==> ((#[trigger] entries[k]).name matches Ok(n) && !is_library(
            n,
            target,
        )) {
        lemma_none_found(names, target, 0, entries);
    }
}

/// Names of which none is the library lead to none.
proof fn lemma_none_found(
    names: Seq<Result<Seq<char>, Seq<char>>>,
    target: Seq<char>,
    from: int,
    entries: Seq<EntryView>,
)
    requires
        0 <= from,
        names == entry_names(entries),
        forall|k: int|
            0 <= k < entries.len() ==> ((#[trigger] entries[k]).name matches Ok(n) && !is_library(
                n,
                target,
            )),
    ensures
        library_from(names, target, from) == Err::<int, Seq<char>>(no_library(target)),
    decreases names.len() - from,
{
    if from < names.len() {
        assert(names[from] == entries[from].name);
        lemma_none_found(names, target, from + 1, entries);
    }
}

/// The library of a target is the file `wintun.dll` in the folder for the
/// processor, below `bin`; in a path the two kinds of slashes are the same.
pub proof fn law_library_is_known_by_its_path(front: Seq<char>, target: Seq<char>)
    ensures
        is_library(front + "bin/"@ + folder_of(target) + "/wintun.dll"@, target),
        is_library(front + "bin\\"@ + folder_of(target) + "\\wintun.dll"@, target),
        text::has_prefix(target, "aarch64"@) ==> folder_of(target) == "arm64"@,
        text::has_prefix(target, "thumbv7a"@) ==> folder_of(target) == "arm"@,
        text::has_prefix(target, "i686"@) || text::has_prefix(target, "i586"@) ==> folder_of(target)
            == "x86"@,
        text::has_prefix(target, "x86_64"@) ==> folder_of(target) == "amd64"@,
{
    reveal_strlit("aarch64");
    reveal_strlit("thumbv7a");
    reveal_strlit("i686");
    reveal_strlit("i586");
    reveal_strlit("x86_64");
    reveal_strlit("arm64");
    reveal_strlit("arm");
    reveal_strlit("x86");
    reveal_strlit("amd64");
    reveal_strlit("bin/");
    reveal_strlit("bin\\");
    reveal_strlit("/wintun.dll");
    reveal_strlit("\\wintun.dll");
    if target.len() >= 4 {
        assert(text::has_prefix(target, "aarch64"@) ==> target.subrange(0, 7)[0] == 'a');
        assert(text::has_prefix(target, "thumbv7a"@) ==> target.subrange(0, 8)[0] == 't');
        assert(text::has_prefix(target, "i686"@) ==> target.subrange(0, 4)[0] == 'i');
        assert(text::has_prefix(target, "i586"@) ==> target.subrange(0, 4)[0] == 'i');
        assert(text::has_prefix(target, "x86_64"@) ==> target.subrange(0, 6)[0] == 'x');
    }
    lemma_path_end(front, "bin/"@ + folder_of(target) + "/wintun.dll"@, target);
    lemma_path_end(front, "bin\\"@ + folder_of(target) + "\\wintun.dll"@, target);
    assert(front + ("bin/"@ + folder_of(target) + "/wintun.dll"@) =~= front + "bin/"@ + folder_of(
        target,
    ) + "/wintun.dll"@);
    assert(front + ("bin\\"@ + folder_of(target) + "\\wintun.dll"@) =~= front + "bin\\"@
        + folder_of(target) + "\\wintun.dll"@);
}

/// A path that ends like the library is the library.
proof fn lemma_path_end(front: Seq<char>, end: Seq<char>, target: Seq<char>)
    requires
        end.len() == library_path(target).len(),
        forall|i: int|
            0 <= i < end.len() ==> #[trigger] with_slashes(end)[i] == library_path(target)[i],
    ensures
        is_library(front + end, target),
{
    let all = with_slashes(front + end);
    let at = front.len() as int;
    assert(all.subrange(at, at + end.len()) =~= library_path(target)) by {
        assert forall|i: int| 0 <= i < end.len() implies all[at + i] == library_path(
            target,
        )[i] by {
            assert(with_slashes(end)[i] == library_path(target)[i]);
        }
    }
}

/// The script names the address and the file, each in quotes.
pub proof fn law_script_names_address_and_file(url: Seq<char>, file: Seq<char>)
    ensures
        text::has_part(fetch_script(url, file), " -Uri '"@ + url + "'"@),
        text::has_part(fetch_script(url, file), " -OutFile '"@ + file + "'"@),
{
    reveal_strlit("$ProgressPreference='SilentlyContinue'; Invoke-WebRequest -Uri '");
    reveal_strlit("' -UseBasicParsing -OutFile '");
    reveal_strlit("'");
    reveal_strlit(" -Uri '");
    reveal_strlit(" -OutFile '");
    let s = fetch_script(url, file);
    let a = "$ProgressPreference='SilentlyContinue'; Invoke-WebRequest -Uri '"@;
    let b = "' -UseBasicParsing -OutFile '"@;
    let p = " -Uri '"@ + url + "'"@;
    let q = " -OutFile '"@ + file + "'"@;
    let i = a.len() - 7;
    let j = a.len() + url.len() + b.len() - 11;
    assert(s.subrange(i, i + p.len()) =~= p);
    assert(text::occurs_at(s, p, i));
    assert(s.subrange(j, j + q.len()) =~= q);
    assert(text::occurs_at(s, q, j));
}

} // verus!
