//! The programs that the debugging interface offers.

use crate::text;
use vstd::prelude::*;

verus! {

/// A program: its name, and where its file is.
#[derive(Debug)]
pub struct ExampleEntry {
    pub name: String,
    pub path: String,
}

/// What `ExampleEntry` says.
#[verifier::ext_equal]
pub ghost struct EntryModel {
    pub name: Seq<char>,
    pub path: Seq<char>,
}

impl View for ExampleEntry {
    type V = EntryModel;

    open spec fn view(&self) -> EntryModel {
        EntryModel { name: self.name@, path: self.path@ }
    }
}

/// A place where a program may be, and whether a file is there.
#[derive(Debug)]
pub struct Candidate {
    pub name: String,
    pub path: String,
    pub exists: bool,
}

/// A place where a program may be.
#[derive(Debug)]
pub struct Place {
    pub name: String,
    pub path: String,
}

impl View for Place {
    type V = EntryModel;

    open spec fn view(&self) -> EntryModel {
        EntryModel { name: self.name@, path: self.path@ }
    }
}

/// Where builds of the examples go.
pub open spec fn build_dir() -> Seq<char> {
    "./target/hecate-rv32-build/examples-build"@
}

/// Where builds of the examples go.
pub fn examples_dir() -> (path: String)
    ensures
        path@ == build_dir(),
{
    "./target/hecate-rv32-build/examples-build".to_owned()
}

/// The program in the directory `dir` with the name `name`: a file of that name.
pub open spec fn program_in(dir: Seq<char>, name: Seq<char>) -> EntryModel {
    EntryModel { name, path: dir + "/"@ + name + ".elf"@ }
}

/// The program in the directory at `dir`, which carries the name of the directory; one whose
/// name cannot be read is called an example.
pub fn place_in(dir: &str, name: Option<&str>) -> (place: Place)
    ensures
        place@ == program_in(
            dir@,
            match name {
                Some(name) => name@,
                None => "example"@,
            },
        ),
{
    let name = match name {
        Some(name) => name,
        None => "example",
    };
    Place {
        name: name.to_owned(),
        path: dir.to_owned().concat("/").concat(name).concat(".elf"),
    }
}

/// The places that are always looked at, in their order.
pub open spec fn known() -> Seq<EntryModel> {
    seq![
        program_in(build_dir() + "/hello_world"@, "hello_world"@),
        program_in(build_dir() + "/linked_list"@, "linked_list"@),
        program_in(build_dir() + "/vector_contiguous"@, "vector_contiguous"@),
        program_in(build_dir() + "/rust_hello"@, "rust_hello"@),
        EntryModel {
            name: "rust_hello (cargo target)"@,
            path:
                "./examples/rust_hello/target/riscv32im-hecate-none-elf/release/rust_hello.elf"@,
        },
    ]
}

/// The views of a list of places.
pub open spec fn place_models(places: Seq<Place>) -> Seq<EntryModel> {
    places.map_values(|place: Place| place@)
}

/// The places that are always looked at, in their order.
pub fn known_places() -> (places: Vec<Place>)
    ensures
        place_models(places@) == known(),
{
    let places = vec![
        place_in(examples_dir().concat("/hello_world").as_str(), Some("hello_world")),
        place_in(examples_dir().concat("/linked_list").as_str(), Some("linked_list")),
        place_in(examples_dir().concat("/vector_contiguous").as_str(), Some("vector_contiguous")),
        place_in(examples_dir().concat("/rust_hello").as_str(), Some("rust_hello")),
        Place {
            name: "rust_hello (cargo target)".to_owned(),
            path:
                "./examples/rust_hello/target/riscv32im-hecate-none-elf/release/rust_hello.elf".to_owned(),
        },
    ];
    assert(place_models(places@) =~= known());
    places
}

/// Whether a path starts at the current directory.
pub open spec fn starts_here(path: Seq<char>) -> bool {
    path.len() >= 2 && path[0] == '.' && path[1] == '/'
}

/// A path without the current directory in front.
pub open spec fn trimmed(path: Seq<char>) -> Seq<char>
    decreases path.len(),
{
    if starts_here(path) {
        trimmed(path.skip(2))
    } else {
        path
    }
}

/// A path with every backslash turned.
pub open spec fn turned(path: Seq<char>) -> Seq<char> {
    path.map_values(
        |c: char|
            if c == '\\' {
                '/'
            } else {
                c
            },
    )
}

/// The one way in which a path is written: from the current directory, with slashes.
pub open spec fn normalized(path: Seq<char>) -> Seq<char> {
    "./"@ + turned(trimmed(path))
}

/// The one way in which a path is written: from the current directory, with slashes.
pub fn normalize(path: &str) -> (text: String)
    ensures
        text@ == normalized(path@),
{
    let len: usize = path.unicode_len();
    let mut start: usize = 0;
    assert(path@.skip(0) == path@);
    while len - start >= 2 && path.get_char(start) == '.' && path.get_char(start + 1) == '/'
        invariant
            start <= len,
            len == path@.len(),
            trimmed(path@.skip(start as int)) == trimmed(path@),
        decreases len - start,
    {
        assert(path@.skip(start as int).skip(2) == path@.skip(start + 2));
        start = start + 2;
    }
    let ghost rest = path@.skip(start as int);
    assert(trimmed(path@) == rest);
    let mut text = "./".to_owned();
    let mut next: usize = start;
    proof {
        reveal_strlit("/");
    }
    assert(rest.take(0) == Seq::<char>::empty());
    assert(text@ == "./"@ + turned(rest.take(0)));
    while next < len
        invariant
            start <= next <= len,
            len == path@.len(),
            rest == path@.skip(start as int),
            "/"@ == seq!['/'],
            text@ == "./"@ + turned(rest.take(next - start)),
        decreases len - next,
    {
        let at = next - start;
        if path.get_char(next) == '\\' {
            text = text.concat("/");
        } else {
            text = text.concat(path.substring_char(next, next + 1));
        }
        proof {
            assert(rest[at as int] == path@[next as int]);
            assert(rest.take(at + 1) == rest.take(at as int).push(rest[at as int]));
            assert(turned(rest.take(at + 1)) == turned(rest.take(at as int)).push(
                turned(seq![rest[at as int]])[0],
            ));
            assert(text@ == "./"@ + turned(rest.take(at + 1)));
        }
        next = next + 1;
    }
    assert(rest.take(rest.len() as int) == rest);
    text
}

/// Whether the text `a` comes before `b`, or is the same: by the first character in which they
/// differ, or else the shorter one first.
pub open spec fn up_to(a: Seq<char>, b: Seq<char>) -> bool
    decreases a.len(),
{
    if a.len() == 0 {
        true
    } else if b.len() == 0 {
        false
    } else if a[0] != b[0] {
        a[0] < b[0]
    } else {
        up_to(a.skip(1), b.skip(1))
    }
}

/// Whether the text `a` comes before `b`, or is the same.
fn in_order(a: &str, b: &str) -> (ordered: bool)
    ensures
        ordered == up_to(a@, b@),
{
    let a_len: usize = a.unicode_len();
    let b_len: usize = b.unicode_len();
    let mut next: usize = 0;
    assert(a@.skip(0) == a@);
    assert(b@.skip(0) == b@);
    while next < a_len && next < b_len
        invariant
            next <= a_len,
            next <= b_len,
            a_len == a@.len(),
            b_len == b@.len(),
            up_to(a@.skip(next as int), b@.skip(next as int)) == up_to(a@, b@),
        decreases a_len - next,
    {
        let x = a.get_char(next);
        let y = b.get_char(next);
        if x != y {
            return x < y;
        }
        assert(a@.skip(next as int).skip(1) == a@.skip(next + 1));
        assert(b@.skip(next as int).skip(1) == b@.skip(next + 1));
        next = next + 1;
    }
    next == a_len
}

/// Whether one of `entries` has this path.
pub open spec fn has_path(entries: Seq<EntryModel>, path: Seq<char>) -> bool {
    exists|i: int| 0 <= i < entries.len() && (#[trigger] entries[i]).path == path
}

/// The programs that the first `count` candidates give: those whose file is there, each path
/// once.
pub open spec fn kept(candidates: Seq<Candidate>, count: nat) -> Seq<EntryModel>
    decreases count,
{
    if count == 0 {
        Seq::empty()
    } else {
        let before = kept(candidates, (count - 1) as nat);
        let candidate = candidates[count - 1];
        let path = normalized(candidate.path@);
        if candidate.exists && !has_path(before, path) {
            before.push(EntryModel { name: candidate.name@, path })
        } else {
            before
        }
    }
}

/// The views of entries.
pub open spec fn models(entries: Seq<ExampleEntry>) -> Seq<EntryModel> {
    entries.map_values(|entry: ExampleEntry| entry@)
}

/// Whether the entries are in the order of their names.
pub open spec fn ordered(entries: Seq<EntryModel>) -> bool {
    forall|i: int, j: int|
        0 <= i < j < entries.len() ==> up_to(
            (#[trigger] entries[i]).name,
            (#[trigger] entries[j]).name,
        )
}

/// `entries` with `entry` behind all that come before it or are called the same.
pub open spec fn with(entries: Seq<EntryModel>, entry: EntryModel) -> Seq<EntryModel>
    decreases entries.len(),
{
    if entries.len() == 0 {
        seq![entry]
    } else if up_to(entries.last().name, entry.name) {
        entries.push(entry)
    } else {
        with(entries.drop_last(), entry).push(entries.last())
    }
}

/// `entries` in the order of their names; those of the same name keep their order.
pub open spec fn sorted(entries: Seq<EntryModel>) -> Seq<EntryModel>
    decreases entries.len(),
{
    if entries.len() == 0 {
        entries
    } else {
        with(sorted(entries.drop_last()), entries.last())
    }
}

/// Where an entry goes among others.
proof fn lemma_with(entries: Seq<EntryModel>, entry: EntryModel, at: int)
    requires
        0 <= at <= entries.len(),
        at == 0 || up_to(entries[at - 1].name, entry.name),
        forall|i: int|
            at <= i < entries.len() ==> !up_to((#[trigger] entries[i]).name, entry.name),
    ensures
        with(entries, entry) == entries.insert(at, entry),
    decreases entries.len(),
{
    if entries.len() == 0 {
        assert(entries.insert(0, entry) == seq![entry]);
    } else if at == entries.len() {
        assert(entries.insert(at, entry) == entries.push(entry));
    } else {
        let front = entries.drop_last();
        assert(!up_to(entries[entries.len() - 1].name, entry.name));
        assert forall|i: int| at <= i < front.len() implies !up_to(
            (#[trigger] front[i]).name,
            entry.name,
        ) by {
            assert(front[i] == entries[i]);
        }
        lemma_with(front, entry, at);
        assert(entries.insert(at, entry) == front.insert(at, entry).push(entries.last()));
    }
}

/// Puts an entry behind all that come before it or are called the same.
fn place(entries: &mut Vec<ExampleEntry>, entry: ExampleEntry)
    ensures
        models(final(entries)@) == with(models(old(entries)@), entry@),
{
    let mut at: usize = entries.len();
    while at > 0 && !in_order(entries[at - 1].name.as_str(), entry.name.as_str())
        invariant
            at <= entries@.len(),
            entries@ == old(entries)@,
            forall|i: int|
                at <= i < entries@.len() ==> !up_to(
                    (#[trigger] models(entries@)[i]).name,
                    entry.name@,
                ),
        decreases at,
    {
        at = at - 1;
    }
    proof {
        lemma_with(models(entries@), entry@, at as int);
        assert(models(entries@.insert(at as int, entry)) == models(entries@).insert(
            at as int,
            entry@,
        ));
    }
    entries.insert(at, entry);
}

/// Whether one of `entries` has this path.
fn knows_path(entries: &Vec<ExampleEntry>, path: &str) -> (known: bool)
    ensures
        known == has_path(models(entries@), path@),
{
    let mut next: usize = 0;
    while next < entries.len()
        invariant
            next <= entries@.len(),
            forall|i: int| 0 <= i < next ==> (#[trigger] models(entries@)[i]).path != path@,
        decreases entries@.len() - next,
    {
        if text::same(entries[next].path.as_str(), path) {
            assert(models(entries@)[next as int].path == path@);
            return true;
        }
        next = next + 1;
    }
    false
}

/// The programs to offer: the candidates whose file is there, each path once, in the order of
/// their names.
pub fn discover_examples(candidates: &Vec<Candidate>) -> (found: Vec<ExampleEntry>)
    ensures
        models(found@) == sorted(kept(candidates@, candidates@.len())),
{
    let mut found: Vec<ExampleEntry> = Vec::new();
    let mut next: usize = 0;
    assert(models(found@) == Seq::<EntryModel>::empty());
    while next < candidates.len()
        invariant
            next <= candidates@.len(),
            models(found@) == kept(candidates@, next as nat),
        decreases candidates@.len() - next,
    {
        let candidate = &candidates[next];
        let path = normalize(candidate.path.as_str());
        if candidate.exists && !knows_path(&found, path.as_str()) {
            let ghost before = found@;
            let entry = ExampleEntry { name: candidate.name.clone(), path };
            assert(models(before.push(entry)) == models(before).push(entry@));
            found.push(entry);
        }
        next = next + 1;
    }
    sort_by_name(found)
}

/// The entries in the order of their names; those of the same name keep their order.
pub fn sort_by_name(entries: Vec<ExampleEntry>) -> (result: Vec<ExampleEntry>)
    ensures
        models(result@) == sorted(models(entries@)),
    decreases entries@.len(),
{
    let mut entries = entries;
    let ghost all = models(entries@);
    let mut result: Vec<ExampleEntry> = Vec::new();
    match entries.pop() {
        Some(last) => {
            assert(models(entries@) == all.drop_last());
            result = sort_by_name(entries);
            place(&mut result, last);
        },
        None => {},
    }
    assert(all.len() == 0 ==> models(result@) == all);
    result
}

/// Any two texts have an order, and it carries over.
proof fn lemma_up_to(a: Seq<char>, b: Seq<char>, c: Seq<char>)
    ensures
        up_to(a, b) || up_to(b, a),
        up_to(a, b) && up_to(b, c) ==> up_to(a, c),
    decreases a.len(),
{
    if a.len() > 0 && b.len() > 0 {
        lemma_up_to(
            a.skip(1),
            b.skip(1),
            if c.len() > 0 {
                c.skip(1)
            } else {
                c
            },
        );
    }
}

proof fn lemma_with_ordered(entries: Seq<EntryModel>, entry: EntryModel)
    requires
        ordered(entries),
    ensures
        ordered(with(entries, entry)),
        with(entries, entry).to_multiset() == entries.to_multiset().insert(entry),
        forall|i: int|
            0 <= i < with(entries, entry).len() ==> with(entries, entry)[i] == entry
                || exists|j: int| 0 <= j < entries.len() && entries[j] == #[trigger] with(
                entries,
                entry,
            )[i],
    decreases entries.len(),
{
    broadcast use vstd::seq_lib::group_to_multiset_ensures;

    let after = with(entries, entry);
    if entries.len() == 0 {
        assert(after == Seq::empty().push(entry));
        assert(entries == Seq::<EntryModel>::empty());
    } else {
        let last = entries.last();
        let front = entries.drop_last();
        if up_to(last.name, entry.name) {
            assert forall|i: int, j: int| 0 <= i < j < after.len() implies up_to(
                (#[trigger] after[i]).name,
                (#[trigger] after[j]).name,
            ) by {
                if j == entries.len() && i < entries.len() - 1 {
                    assert(up_to(entries[i].name, entries[entries.len() - 1].name));
                    lemma_up_to(entries[i].name, last.name, entry.name);
                }
            }
            assert forall|i: int| 0 <= i < after.len() implies after[i] == entry || exists|j: int|
                0 <= j < entries.len() && entries[j] == #[trigger] after[i] by {
                if i < entries.len() {
                    assert(entries[i] == after[i]);
                }
            }
        } else {
            lemma_with_ordered(front, entry);
            let inner = with(front, entry);
            lemma_up_to(last.name, entry.name, entry.name);
            assert forall|i: int, j: int| 0 <= i < j < after.len() implies up_to(
                (#[trigger] after[i]).name,
                (#[trigger] after[j]).name,
            ) by {
                if j == inner.len() {
                    if inner[i] != entry {
                        let k = choose|k: int|
                            0 <= k < front.len() && front[k] == #[trigger] inner[i];
                        assert(up_to(entries[k].name, entries[entries.len() - 1].name));
                    }
                } else {
                    assert(up_to(inner[i].name, inner[j].name));
                }
            }
            assert forall|i: int| 0 <= i < after.len() implies after[i] == entry || exists|j: int|
                0 <= j < entries.len() && entries[j] == #[trigger] after[i] by {
                if i < inner.len() && inner[i] != entry {
                    let k = choose|k: int|
                        0 <= k < front.len() && front[k] == #[trigger] inner[i];
                    assert(entries[k] == after[i]);
                } else if i == inner.len() {
                    assert(entries[entries.len() - 1] == after[i]);
                }
            }
            assert(entries == front.push(last));
            assert(after == inner.push(last));
            assert(after.to_multiset() == entries.to_multiset().insert(entry));
        }
    }
}

/// The programs to offer are in the order of their names, and they are exactly those that were
/// found.
pub proof fn law_sorted(entries: Seq<EntryModel>)
    ensures
        ordered(sorted(entries)),
        sorted(entries).to_multiset() == entries.to_multiset(),
    decreases entries.len(),
{
    broadcast use vstd::seq_lib::group_to_multiset_ensures;

    if entries.len() > 0 {
        law_sorted(entries.drop_last());
        lemma_with_ordered(sorted(entries.drop_last()), entries.last());
        assert(entries == entries.drop_last().push(entries.last()));
    }
}

/// No path is offered twice, and every program that is offered has its file.
pub proof fn law_kept_once(candidates: Seq<Candidate>, count: nat)
    requires
        count <= candidates.len(),
    ensures
        forall|i: int, j: int|
            0 <= i < j < kept(candidates, count).len() ==> (#[trigger] kept(
                candidates,
                count,
            )[i]).path != (#[trigger] kept(candidates, count)[j]).path,
        forall|i: int|
            0 <= i < kept(candidates, count).len() ==> exists|k: int|
                0 <= k < count && candidates[k].exists && normalized(
                    (#[trigger] candidates[k]).path@,
                ) == (#[trigger] kept(candidates, count)[i]).path,
    decreases count,
{
    if count > 0 {
        law_kept_once(candidates, (count - 1) as nat);
        let before = kept(candidates, (count - 1) as nat);
        let after = kept(candidates, count);
        assert forall|i: int| 0 <= i < after.len() implies exists|k: int|
            0 <= k < count && candidates[k].exists && normalized((#[trigger] candidates[k]).path@)
                == (#[trigger] after[i]).path by {
            if i < before.len() {
                assert(before[i] == after[i]);
                let k = choose|k: int|
                    0 <= k < count - 1 && candidates[k].exists && normalized(
                        (#[trigger] candidates[k]).path@,
                    ) == before[i].path;
                assert(normalized(candidates[k].path@) == after[i].path);
            } else {
                assert(normalized(candidates[count - 1].path@) == after[i].path);
            }
        }
        assert forall|i: int, j: int| 0 <= i < j < after.len() implies (#[trigger] after[i]).path
            != (#[trigger] after[j]).path by {
            if j == before.len() {
                assert(before[i].path == after[i].path);
            } else {
                assert(before[i].path != before[j].path);
            }
        }
    }
}

/// A path that was normalized stays as it is when it is normalized again, unless turning its
/// backslashes put another current directory in front.
pub proof fn law_normalized_once(path: Seq<char>)
    requires
        !starts_here(turned(trimmed(path))),
    ensures
        normalized(normalized(path)) == normalized(path),
{
    reveal_strlit("./");
    let rest = turned(trimmed(path));
    let once = normalized(path);
    assert(once.skip(2) == rest);
    assert(starts_here(once));
    assert(trimmed(rest) == rest);
    assert(trimmed(once) == rest);
    assert(turned(rest) == rest);
}

/// A path is written the same with and without the current directory in front. One without it gets
/// it in front, and its backslashes are turned; nothing else about it changes.
pub proof fn law_paths(path: Seq<char>, i: int)
    ensures
        normalized("./"@ + path) == normalized(path),
        !starts_here(path) ==> normalized(path).len() == path.len() + 2 && normalized(path)[0] == '.'
            && normalized(path)[1] == '/',
        !starts_here(path) && 0 <= i < path.len() ==> normalized(path)[i + 2] == (if path[i]
            == '\\' {
            '/'
        } else {
            path[i]
        }),
        starts_here(path) <==> path.len() >= 2 && path[0] == '.' && path[1] == '/',
{
    reveal_strlit("./");
    let front = "./"@ + path;
    assert(front[0] == '.' && front[1] == '/');
    assert(front.skip(2) == path);
    assert(trimmed(front) == trimmed(path));
}

/// The order of texts: the first character in which they differ decides; a text comes before every
/// longer one that starts with it, and not behind itself.
pub proof fn law_order_of_texts(
    common: Seq<char>,
    x: char,
    y: char,
    a: Seq<char>,
    b: Seq<char>,
)
    ensures
        x != y ==> up_to(common.push(x) + a, common.push(y) + b) == (x < y),
        up_to(common, common + b),
        b.len() > 0 ==> !up_to(common + b, common),
    decreases common.len(),
{
    let one = common.push(x) + a;
    let two = common.push(y) + b;
    if common.len() > 0 {
        let rest = common.skip(1);
        law_order_of_texts(rest, x, y, a, b);
        assert(one.skip(1) == rest.push(x) + a);
        assert(two.skip(1) == rest.push(y) + b);
        assert((common + b).skip(1) == rest + b);
        assert(one[0] == common[0] && two[0] == common[0]);
        assert((common + b)[0] == common[0]);
    } else {
        assert(one[0] == x && two[0] == y);
    }
}

/// A program whose file is there is offered, under the name of the first place with its path.
pub proof fn law_programs_are_offered(candidates: Seq<Candidate>, count: nat, k: int)
    requires
        0 <= k < count <= candidates.len(),
        candidates[k].exists,
        forall|i: int|
            0 <= i < k && (#[trigger] candidates[i]).exists ==> normalized(candidates[i].path@)
                != normalized(candidates[k].path@),
    ensures
        kept(candidates, count).contains(
            EntryModel { name: candidates[k].name@, path: normalized(candidates[k].path@) },
        ),
    decreases count,
{
    let entry = EntryModel {
        name: candidates[k].name@,
        path: normalized(candidates[k].path@),
    };
    let before = kept(candidates, (count - 1) as nat);
    let after = kept(candidates, count);
    if k == count - 1 {
        law_kept_once(candidates, (count - 1) as nat);
        if has_path(before, entry.path) {
            let i = choose|i: int|
                0 <= i < before.len() && (#[trigger] before[i]).path == entry.path;
            assert(before[i].path == entry.path);
            let j = choose|j: int|
                0 <= j < count - 1 && candidates[j].exists && normalized(
                    (#[trigger] candidates[j]).path@,
                ) == before[i].path;
            assert(candidates[j].exists);
        }
        assert(after[after.len() - 1] == entry);
    } else {
        law_programs_are_offered(candidates, (count - 1) as nat, k);
        let i = before.index_of(entry);
        assert(before[i] == entry);
        assert(after[i] == entry);
    }
}

/// A text does not come behind itself.
proof fn lemma_up_to_itself(a: Seq<char>)
    ensures
        up_to(a, a),
    decreases a.len(),
{
    if a.len() > 0 {
        lemma_up_to_itself(a.skip(1));
    }
}

/// Putting an entry among others keeps the order of those of one name, with the new one last.
proof fn lemma_with_kept(entries: Seq<EntryModel>, entry: EntryModel, name: Seq<char>)
    ensures
        with(entries, entry).filter(|e: EntryModel| e.name == name) == if entry.name == name {
            entries.filter(|e: EntryModel| e.name == name).push(entry)
        } else {
            entries.filter(|e: EntryModel| e.name == name)
        },
    decreases entries.len(),
{
    reveal(Seq::filter);
    let called = |e: EntryModel| e.name == name;
    let after = with(entries, entry);
    if entries.len() == 0 {
        assert(after.drop_last() == Seq::<EntryModel>::empty());
        assert(entries == Seq::<EntryModel>::empty());
        assert(Seq::<EntryModel>::empty().filter(called) == Seq::<EntryModel>::empty());
    } else if up_to(entries.last().name, entry.name) {
        assert(after.drop_last() == entries);
    } else {
        lemma_with_kept(entries.drop_last(), entry, name);
        lemma_up_to_itself(entry.name);
        assert(after.drop_last() == with(entries.drop_last(), entry));
        assert(after.last() == entries.last());
    }
}

/// Programs of the same name are offered in the order in which they were found.
pub proof fn law_same_names_keep_order(entries: Seq<EntryModel>, name: Seq<char>)
    ensures
        sorted(entries).filter(|e: EntryModel| e.name == name) == entries.filter(
            |e: EntryModel| e.name == name,
        ),
    decreases entries.len(),
{
    reveal(Seq::filter);
    if entries.len() > 0 {
        law_same_names_keep_order(entries.drop_last(), name);
        lemma_with_kept(sorted(entries.drop_last()), entries.last(), name);
    }
}

/// The program in a directory is a file that carries its name, and the places that are always
/// looked at are the directories of four builds, and one file.
pub proof fn law_known_places(dir: Seq<char>, name: Seq<char>)
    ensures
        program_in(dir, name).name == name,
        program_in(dir, name).path == dir + "/"@ + name + ".elf"@,
        build_dir() == "./target/hecate-rv32-build/examples-build"@,
        known().len() == 5,
        known()[0] == program_in(build_dir() + "/hello_world"@, "hello_world"@),
        known()[1] == program_in(build_dir() + "/linked_list"@, "linked_list"@),
        known()[2] == program_in(build_dir() + "/vector_contiguous"@, "vector_contiguous"@),
        known()[3] == program_in(build_dir() + "/rust_hello"@, "rust_hello"@),
        known()[4].name == "rust_hello (cargo target)"@,
        known()[4].path
            == "./examples/rust_hello/target/riscv32im-hecate-none-elf/release/rust_hello.elf"@,
{
}

} // verus!
