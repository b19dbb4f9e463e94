//! The hardware monitors of the kernel: devices with a name, and in each a
//! directory of sensor files.

use crate::io::{advances, Reply, ReplyView, Request, RequestView, World};
use crate::names::{
    copy_of, has_form, join, name_le, name_matches, names_of, path_of, replace, replaced,
    sort_names, sorted_names,
};
use crate::text::{same_text, starts_with, trim, trim_of};
use vstd::prelude::*;
use vstd::utf8::{encode_utf8, valid_utf8};

verus! {

/// The directory of hardware monitors.
pub const HWMON_ROOT: &'static str = "/sys/class/hwmon";

/// How many kinds of CPU monitor there are.
pub const CPU_HWMON_COUNT: usize = 3;

/// A hardware monitor.
pub struct Hwmon {
    /// The name that the driver gave it.
    pub name: String,
    /// The path of its directory.
    pub dir: Vec<u8>,
}

impl View for Hwmon {
    type V = (Seq<char>, Seq<u8>);

    open spec fn view(&self) -> (Seq<char>, Seq<u8>) {
        (self.name@, self.dir@)
    }
}

/// The contents of a list of monitors.
pub open spec fn mons_of(v: Seq<Hwmon>) -> Seq<(Seq<char>, Seq<u8>)> {
    v.map_values(|m: Hwmon| m@)
}

/// The path of the directory of hardware monitors.
pub open spec fn hwmon_root() -> Seq<u8> {
    encode_utf8(HWMON_ROOT@)
}

/// The names of CPU monitors, the preferred one first.
pub open spec fn cpu_hwmon_names() -> Seq<Seq<char>> {
    seq!["k10temp"@, "coretemp"@, "zenpower"@]
}

/// Whether a label marks the sensor for the CPU as a whole.
pub open spec fn is_preferred_label(label: Seq<char>) -> bool {
    "Tctl"@.is_prefix_of(label) || "Package"@.is_prefix_of(label)
}

/// The paths of the entries `names` of the directory of monitors, in order.
pub open spec fn device_dirs(names: Option<Seq<Seq<u8>>>) -> Seq<Seq<u8>> {
    match names {
        Some(names) => sorted_names(names).map_values(|n: Seq<u8>| path_of(hwmon_root(), n)),
        None => Seq::empty(),
    }
}

/// The file in a monitor's directory that holds its name.
pub open spec fn name_file(dir: Seq<u8>) -> Seq<u8> {
    path_of(dir, encode_utf8("name"@))
}

/// The monitors in the directories `dirs`: those whose name can be read.
pub open spec fn named_dirs(dirs: Seq<Seq<u8>>, w: World) -> Seq<(Seq<char>, Seq<u8>)>
    decreases dirs.len(),
{
    if dirs.len() == 0 {
        Seq::empty()
    } else {
        let rest = named_dirs(dirs.drop_first(), w);
        match (w.text)(name_file(dirs.first())) {
            Some(text) => seq![(trim_of(text), dirs.first())] + rest,
            None => rest,
        }
    }
}

/// The hardware monitors, in the order of their directories.
pub open spec fn hwmon_dirs_in(w: World) -> Seq<(Seq<char>, Seq<u8>)> {
    named_dirs(device_dirs((w.listing)(hwmon_root())), w)
}

/// The directory of the first monitor with the name `name`.
pub open spec fn first_named(mons: Seq<(Seq<char>, Seq<u8>)>, name: Seq<char>) -> Option<Seq<u8>>
    decreases mons.len(),
{
    if mons.len() == 0 {
        None
    } else if mons.first().0 == name {
        Some(mons.first().1)
    } else {
        first_named(mons.drop_first(), name)
    }
}

/// The names of the form `temp..` with the ending `suffix`, in order.
pub open spec fn temp_files(names: Option<Seq<Seq<u8>>>, suffix: Seq<char>) -> Seq<Seq<u8>> {
    match names {
        Some(names) => sorted_names(
            names.filter(|n: Seq<u8>| name_matches(n, encode_utf8("temp"@), encode_utf8(suffix))),
        ),
        None => Seq::empty(),
    }
}

/// The path of the first temperature file in a directory, by the names in it.
pub open spec fn first_input(dir: Seq<u8>, names: Option<Seq<Seq<u8>>>) -> Option<Seq<u8>> {
    let inputs = temp_files(names, "_input"@);
    if inputs.len() == 0 {
        None
    } else {
        Some(path_of(dir, inputs.first()))
    }
}

/// Whether a name has the form of a temperature file.
pub open spec fn is_temp_input(name: Seq<u8>) -> bool {
    name_matches(name, encode_utf8("temp"@), encode_utf8("_input"@))
}

/// Whether `name` is the least of the temperature files among `names`.
pub open spec fn is_least_input(names: Seq<Seq<u8>>, name: Seq<u8>) -> bool {
    &&& names.contains(name)
    &&& is_temp_input(name)
    &&& forall|j: int|
        0 <= j < names.len() && is_temp_input(#[trigger] names[j]) ==> name_le(name, names[j])
}

/// The name of the temperature file that belongs to a label file.
pub open spec fn input_of_label(label_file: Seq<u8>) -> Seq<u8> {
    replaced(label_file, encode_utf8("_label"@), encode_utf8("_input"@))
}

/// The monitors that are known so far, while they are looked up.
pub struct HwmonScan {
    /// Whether the directory of monitors has been listed.
    pub listed: bool,
    /// The directories whose name is still to be read.
    pub todo: Vec<Vec<u8>>,
    /// The monitors whose name has been read.
    pub found: Vec<Hwmon>,
}

/// The monitors that are known so far, as values.
pub ghost struct ScanView {
    /// Whether the directory of monitors has been listed.
    pub listed: bool,
    /// The directories whose name is still to be read.
    pub todo: Seq<Seq<u8>>,
    /// The monitors whose name has been read.
    pub found: Seq<(Seq<char>, Seq<u8>)>,
}

impl View for HwmonScan {
    type V = ScanView;

    open spec fn view(&self) -> ScanView {
        ScanView { listed: self.listed, todo: names_of(self.todo@), found: mons_of(self.found@) }
    }
}

impl ScanView {
    /// Nothing is known yet.
    pub open spec fn start() -> Self {
        ScanView { listed: false, todo: Seq::empty(), found: Seq::empty() }
    }

    /// What to ask next. Nothing, if all is known.
    pub open spec fn request(self) -> Option<RequestView> {
        if !self.listed {
            Some(RequestView::ListDir(hwmon_root()))
        } else if self.todo.len() > 0 {
            Some(RequestView::ReadFile(name_file(self.todo.first())))
        } else {
            None
        }
    }

    /// What is known after a reply.
    pub open spec fn step(self, reply: ReplyView) -> Self {
        if !self.listed {
            ScanView { listed: true, todo: device_dirs(reply.listing()), found: self.found }
        } else if self.todo.len() > 0 {
            ScanView {
                listed: true,
                todo: self.todo.drop_first(),
                found: match reply.text() {
                    Some(text) => self.found.push((trim_of(text), self.todo.first())),
                    None => self.found,
                },
            }
        } else {
            self
        }
    }

    /// The monitors that will be known in the end, in a world that stays as
    /// it is.
    pub open spec fn outcome(self, w: World) -> Seq<(Seq<char>, Seq<u8>)> {
        if !self.listed {
            self.found + hwmon_dirs_in(w)
        } else {
            self.found + named_dirs(self.todo, w)
        }
    }

    /// How many questions are left, in a world that stays as it is.
    pub open spec fn remaining(self, w: World) -> nat {
        if !self.listed {
            1 + device_dirs((w.listing)(hwmon_root())).len()
        } else {
            self.todo.len()
        }
    }

    /// Where the scan is: 2 before the listing, 1 after it, 0 at its end.
    pub open spec fn stage(self) -> nat {
        if !self.listed {
            2
        } else if self.todo.len() > 0 {
            1
        } else {
            0
        }
    }

    /// The scan after each of its questions has been answered by `w`.
    pub open spec fn run(self, w: World) -> Self
        decreases self.remaining(w),
        via Self::run_ends
    {
        match self.request() {
            Some(request) => self.step(w.answer(request)).run(w),
            None => self,
        }
    }

    #[via_fn]
    proof fn run_ends(self, w: World) {
        if self.request() is Some {
            law_scan_step(self, w);
        }
    }
}

/// Each answer of a world brings the scan one step nearer to its end, and to
/// the same monitors.
pub proof fn law_scan_step(s: ScanView, w: World)
    requires
        s.request() is Some,
    ensures
        s.step(w.answer(s.request()->0)).outcome(w) == s.outcome(w),
        s.step(w.answer(s.request()->0)).remaining(w) + 1 == s.remaining(w),
{
    let t = s.step(w.answer(s.request()->0));
    if s.listed {
        assert(t.outcome(w) =~= s.outcome(w));
    }
}

/// Whatever is answered, the scan goes on to a later stage, or stays in its
/// stage with less to do. So it ends, even where the system changes meanwhile.
pub proof fn law_scan_always_advances(s: ScanView, reply: ReplyView)
    requires
        s.request() is Some,
    ensures
        advances(
            (s.stage(), s.todo.len()),
            (s.step(reply).stage(), s.step(reply).todo.len()),
        ),
{
}

/// A scan that has nothing left to ask has found its monitors.
pub proof fn law_scan_end(s: ScanView, w: World)
    requires
        s.request() is None,
    ensures
        s.found == s.outcome(w),
        s.remaining(w) == 0,
{
    assert(s.outcome(w) =~= s.found);
}

proof fn lemma_scan_run(s: ScanView, w: World)
    ensures
        s.run(w).request() is None,
        s.run(w).found == s.outcome(w),
    decreases s.remaining(w),
{
    if let Some(request) = s.request() {
        law_scan_step(s, w);
        lemma_scan_run(s.step(w.answer(request)), w);
    } else {
        law_scan_end(s, w);
    }
}

/// In a world that stays as it is, a scan from the start ends with the
/// hardware monitors of that world.
pub proof fn law_scan_finds_monitors(w: World)
    ensures
        ScanView::start().run(w).request() is None,
        ScanView::start().run(w).found == hwmon_dirs_in(w),
{
    lemma_scan_run(ScanView::start(), w);
    assert(ScanView::start().outcome(w) =~= hwmon_dirs_in(w));
}

/// The first temperature file is the least name of its form in the directory.
/// There is none only where no name has the form.
pub proof fn law_first_input_is_least(dir: Seq<u8>, names: Seq<Seq<u8>>)
    ensures
        match first_input(dir, Some(names)) {
            Some(path) => exists|name: Seq<u8>| #[trigger]
                is_least_input(names, name) && path == path_of(dir, name),
            None => forall|j: int| 0 <= j < names.len() ==> !is_temp_input(#[trigger] names[j]),
        },
{
    broadcast use vstd::seq_lib::group_to_multiset_ensures;

    let form = |n: Seq<u8>| name_matches(n, encode_utf8("temp"@), encode_utf8("_input"@));
    let kept = names.filter(form);
    let inputs = sorted_names(kept);
    crate::names::law_sorted_names(kept);
    assert forall|j: int| 0 <= j < names.len() && is_temp_input(#[trigger] names[j]) implies
        inputs.contains(names[j]) by {
        names.lemma_filter_contains(form, j);
        assert(kept.to_multiset().count(names[j]) > 0);
    }
    if inputs.len() > 0 {
        let name = inputs.first();
        assert(inputs.contains(name));
        assert(inputs.to_multiset().count(name) > 0);
        assert(kept.contains(name));
        names.lemma_filter_contains_rev(form, name);
        let at = choose|i: int| 0 <= i < kept.len() && kept[i] == name;
        names.lemma_filter_pred(form, at);
        assert forall|j: int| 0 <= j < names.len() && is_temp_input(#[trigger] names[j]) implies
            name_le(name, names[j]) by {
            let k = choose|k: int| 0 <= k < inputs.len() && inputs[k] == names[j];
            if k > 0 {
                assert(name_le(inputs[0], inputs[k]));
            } else {
                crate::names::lemma_name_le_reflexive(name);
            }
        }
        assert(is_least_input(names, name));
    }
}

/// The temperature file of `tempN_label` is `tempN_input`.
pub proof fn law_input_of_label(stem: Seq<u8>)
    requires
        forall|i: int| 0 <= i < stem.len() ==> stem[i] != 0x5f,
    ensures
        input_of_label(stem + encode_utf8("_label"@)) == stem + encode_utf8("_input"@),
{
    reveal_strlit("_label");
    vstd::utf8::is_ascii_chars_encode_utf8("_label"@);
    assert(encode_utf8("_label"@).first() == 0x5f);
    crate::names::law_replaced_at_end(stem, encode_utf8("_label"@), encode_utf8("_input"@));
}

/// Whatever the name of a label file, its temperature file has the form of one.
pub proof fn law_label_gives_input(label_file: Seq<u8>)
    requires
        name_matches(label_file, encode_utf8("temp"@), encode_utf8("_label"@)),
    ensures
        is_temp_input(input_of_label(label_file)),
        input_of_label(label_file).len() == label_file.len(),
{
    let temp = encode_utf8("temp"@);
    let from = encode_utf8("_label"@);
    let to = encode_utf8("_input"@);
    reveal_strlit("temp");
    reveal_strlit("_label");
    reveal_strlit("_input");
    vstd::utf8::is_ascii_chars_encode_utf8("temp"@);
    vstd::utf8::is_ascii_chars_encode_utf8("_label"@);
    vstd::utf8::is_ascii_chars_encode_utf8("_input"@);
    let input = input_of_label(label_file);
    crate::names::law_replaced_ascii(label_file, from, to);
    assert(temp.is_prefix_of(input)) by {
        assert(label_file.subrange(0, 4) == temp);
        assert forall|i: int| 0 <= i < 4 implies label_file[i] != from.first() by {
            assert(label_file.subrange(0, 4)[i] == temp[i]);
        }
        crate::names::law_replaced_keeps_front(label_file, 4, from, to);
        assert(input.take(4) == label_file.take(4));
        assert(input.subrange(0, 4) == temp);
    }
    assert(to.is_suffix_of(input)) by {
        let stem = label_file.take(label_file.len() - 6);
        assert(stem + from == label_file);
        crate::names::law_replaced_ending(stem, from, to);
    }
}

/// The names of the form `temp..` with the ending `suffix`, in order.
fn temp_names(names: Vec<Vec<u8>>, suffix: &str) -> (r: Vec<Vec<u8>>)
    ensures
        names_of(r@) == temp_files(Some(names_of(names@)), suffix@),
{
    let ghost all = names_of(names@);
    let ghost form = |n: Seq<u8>|
        name_matches(n, encode_utf8("temp"@), encode_utf8(suffix@));
    let mut kept: Vec<Vec<u8>> = Vec::new();
    let n: usize = names.len();
    for i in 0..n
        invariant
            n == names@.len(),
            all == names_of(names@),
            form == (|n: Seq<u8>| name_matches(n, encode_utf8("temp"@), encode_utf8(suffix@))),
            names_of(kept@) == all.take(i as int).filter(form),
    {
        let name: &[u8] = names[i].as_slice();
        proof {
            reveal(Seq::filter);
            assert(all.take(i + 1).drop_last() == all.take(i as int));
            assert(all.take(i + 1).last() == name@);
        }
        if has_form(name, "temp".as_bytes(), suffix.as_bytes()) {
            let ghost before = kept@;
            kept.push(copy_of(name));
            assert(names_of(kept@) == names_of(before).push(name@));
        }
    }
    assert(all.take(n as int) == all);
    sort_names(kept)
}

/// The path of the first temperature file in the directory `dir`. `names` are
/// the names in it, if it could be listed.
pub fn first_temp_input(dir: &[u8], names: Option<Vec<Vec<u8>>>) -> (r: Option<Vec<u8>>)
    ensures
        first_input(
            dir@,
            match names {
                Some(names) => Some(names_of(names@)),
                None => None,
            },
        ) == match r {
            Some(path) => Some(path@),
            None => None,
        },
{
    match names {
        Some(names) => {
            let inputs = temp_names(names, "_input");
            assert(names_of(inputs@).len() == inputs@.len());
            if inputs.len() == 0 {
                None
            } else {
                assert(names_of(inputs@).first() == inputs@[0]@);
                Some(join(dir, inputs[0].as_slice()))
            }
        },
        None => None,
    }
}

/// The label files among the names in a directory, in order.
pub fn label_files(names: Option<Vec<Vec<u8>>>) -> (r: Vec<Vec<u8>>)
    ensures
        names_of(r@) == temp_files(
            match names {
                Some(names) => Some(names_of(names@)),
                None => None,
            },
            "_label"@,
        ),
{
    match names {
        Some(names) => temp_names(names, "_label"),
        None => {
            let none: Vec<Vec<u8>> = Vec::new();
            assert(names_of(none@) =~= Seq::<Seq<u8>>::empty());
            none
        },
    }
}

/// The name of the temperature file that belongs to a label file.
pub fn input_name(label_file: &[u8]) -> (r: Vec<u8>)
    ensures
        r@ == input_of_label(label_file@),
{
    replace(label_file, "_label".as_bytes(), "_input".as_bytes())
}

/// Whether a label marks the sensor for the CPU as a whole.
pub fn preferred_label(label: &str) -> (r: bool)
    ensures
        r == is_preferred_label(label@),
{
    starts_with(label, "Tctl") || starts_with(label, "Package")
}

/// The name of the CPU monitor that is looked for at the place `k`.
pub fn cpu_hwmon_name(k: usize) -> (r: &'static str)
    requires
        k < CPU_HWMON_COUNT,
    ensures
        r@ == cpu_hwmon_names()[k as int],
{
    if k == 0 {
        "k10temp"
    } else if k == 1 {
        "coretemp"
    } else {
        "zenpower"
    }
}

/// The directory of the first monitor with the name `name`.
pub fn find_named(mons: &Vec<Hwmon>, name: &str) -> (r: Option<Vec<u8>>)
    ensures
        first_named(mons_of(mons@), name@) == match r {
            Some(dir) => Some(dir@),
            None => None,
        },
{
    let ghost all = mons_of(mons@);
    let n: usize = mons.len();
    assert(all.skip(0) == all);
    for i in 0..n
        invariant
            n == mons@.len(),
            all == mons_of(mons@),
            first_named(all, name@) == first_named(all.skip(i as int), name@),
    {
        assert(all.skip(i as int).first() == mons@[i as int]@);
        assert(all.skip(i as int).drop_first() == all.skip(i + 1));
        if same_text(mons[i].name.as_str(), name) {
            return Some(copy_of(mons[i].dir.as_slice()));
        }
    }
    None
}

/// Starts to look up the hardware monitors.
pub fn hwmon_dirs() -> (r: HwmonScan)
    ensures
        r@ == ScanView::start(),
        forall|w: World| r@.outcome(w) == hwmon_dirs_in(w),
{
    let r = HwmonScan { listed: false, todo: Vec::new(), found: Vec::new() };
    proof {
        assert(names_of(r.todo@) =~= Seq::<Seq<u8>>::empty());
        assert(mons_of(r.found@) =~= Seq::<(Seq<char>, Seq<u8>)>::empty());
        assert forall|w: World| r@.outcome(w) == hwmon_dirs_in(w) by {
            assert(r@.outcome(w) =~= hwmon_dirs_in(w));
        }
    }
    r
}

impl HwmonScan {
    /// What to ask next. Nothing, if all is known.
    pub fn request(&self) -> (r: Option<Request>)
        ensures
            self@.request() == crate::io::request_view(r),
    {
        assert(names_of(self.todo@).len() == self.todo@.len());
        if !self.listed {
            Some(Request::ListDir(copy_of(HWMON_ROOT.as_bytes())))
        } else if self.todo.len() > 0 {
            assert(names_of(self.todo@).first() == self.todo@[0]@);
            Some(Request::ReadFile(join(self.todo[0].as_slice(), "name".as_bytes())))
        } else {
            None
        }
    }

    /// Takes in the reply to the last request.
    pub fn step(self, reply: Reply) -> (r: Self)
        ensures
            r@ == self@.step(reply@),
    {
        let mut scan = self;
        if !scan.listed {
            scan.todo = list_dirs(reply.listing());
            scan.listed = true;
        } else if scan.todo.len() > 0 {
            let ghost todo = scan.todo@;
            let ghost found = scan.found@;
            assert(names_of(todo).first() == todo[0]@);
            let dir = scan.todo.remove(0);
            assert(names_of(scan.todo@) =~= names_of(todo).drop_first());
            match reply.text() {
                Some(text) => {
                    let name = trim(text.as_str()).to_owned();
                    scan.found.push(Hwmon { name, dir });
                    assert(mons_of(scan.found@) =~= mons_of(found).push(
                        (trim_of(text@), names_of(todo).first()),
                    ));
                },
                None => {},
            }
        }
        scan
    }
}

/// The paths of the entries of the directory of monitors, in order.
fn list_dirs(names: Option<Vec<Vec<u8>>>) -> (r: Vec<Vec<u8>>)
    ensures
        names_of(r@) == device_dirs(
            match names {
                Some(names) => Some(names_of(names@)),
                None => None,
            },
        ),
{
    let mut dirs: Vec<Vec<u8>> = Vec::new();
    match names {
        Some(names) => {
            let sorted = sort_names(names);
            let n: usize = sorted.len();
            for i in 0..n
                invariant
                    n == sorted@.len(),
                    dirs@.len() == i,
                    forall|j: int|
                        0 <= j < i ==> (#[trigger] dirs@[j])@ == path_of(
                            hwmon_root(),
                            names_of(sorted@)[j],
                        ),
            {
                dirs.push(join(HWMON_ROOT.as_bytes(), sorted[i].as_slice()));
            }
            assert(names_of(dirs@) =~= names_of(sorted@).map_values(
                |n: Seq<u8>| path_of(hwmon_root(), n),
            ));
        },
        None => {
            assert(names_of(dirs@) =~= Seq::<Seq<u8>>::empty());
        },
    }
    dirs
}

/// Whether `order` holds the names `names`, each as often as it is there, in byte
/// order.
pub open spec fn is_order_of(order: Seq<Seq<u8>>, names: Seq<Seq<u8>>) -> bool {
    &&& order.to_multiset() == names.to_multiset()
    &&& forall|i: int, j: int|
        0 <= i < j < order.len() ==> name_le(#[trigger] order[i], #[trigger] order[j])
}

/// The path of the monitor in the entry `entry` of the directory of monitors.
pub open spec fn monitor_dir(entry: Seq<u8>) -> Seq<u8> {
    encode_utf8("/sys/class/hwmon"@) + seq![0x2f] + entry
}

/// Whether the file for the name of a monitor in the directory `dir` says `name`.
pub open spec fn has_name(w: World, dir: Seq<u8>, name: Seq<char>) -> bool {
    let text = (w.text)(dir + seq![0x2f] + encode_utf8("name"@));
    text is Some && trim_of(text->0) == name
}

/// Whether the entry `entry` of the directory of monitors is a monitor with the name
/// `name`.
pub open spec fn is_monitor(w: World, entry: Seq<u8>, name: Seq<char>) -> bool {
    let names = (w.listing)(encode_utf8("/sys/class/hwmon"@));
    names is Some && names->0.contains(entry) && has_name(w, monitor_dir(entry), name)
}

/// Whether `entry` is the first monitor with the name `name`, in byte order.
pub open spec fn is_first_monitor(w: World, entry: Seq<u8>, name: Seq<char>) -> bool {
    &&& is_monitor(w, entry, name)
    &&& forall|other: Seq<u8>| #[trigger] is_monitor(w, other, name) ==> name_le(entry, other)
}

proof fn lemma_sorted_is_order(names: Seq<Seq<u8>>)
    ensures
        is_order_of(sorted_names(names), names),
        sorted_names(names).len() == names.len(),
        forall|n: Seq<u8>| #[trigger] sorted_names(names).contains(n) <==> names.contains(n),
{
    broadcast use vstd::seq_lib::group_to_multiset_ensures;

    crate::names::law_sorted_names(names);
    let t = sorted_names(names);
    assert(t.to_multiset().len() == names.to_multiset().len());
    assert forall|n: Seq<u8>| #[trigger] t.contains(n) <==> names.contains(n) by {
        assert(t.contains(n) <==> t.to_multiset().count(n) > 0);
        assert(names.contains(n) <==> names.to_multiset().count(n) > 0);
    }
}

proof fn lemma_filter_count(names: Seq<Seq<u8>>, form: spec_fn(Seq<u8>) -> bool, n: Seq<u8>)
    ensures
        names.filter(form).to_multiset().count(n) == if form(n) {
            names.to_multiset().count(n)
        } else {
            0
        },
    decreases names.len(),
{
    broadcast use vstd::seq_lib::group_to_multiset_ensures;

    reveal(Seq::filter);
    if names.len() > 0 {
        let before = names.drop_last();
        let last = names.last();
        lemma_filter_count(before, form, n);
        assert(names == before.push(last));
        vstd::seq_lib::to_multiset_build(before, last);
        vstd::seq_lib::to_multiset_build(before.filter(form), last);
    } else {
        assert(names.filter(form) == names);
        assert(!names.contains(n));
        assert(names.to_multiset().count(n) == 0);
    }
}

/// The files of a kind in a directory are exactly the names in it that are UTF-8,
/// begin with `temp` and have the ending of the kind: every one of them, as often
/// as it is listed, in byte order.
pub proof fn law_temp_files_exact(names: Seq<Seq<u8>>, suffix: Seq<char>)
    ensures
        temp_files(None, suffix) == Seq::<Seq<u8>>::empty(),
        forall|n: Seq<u8>| #[trigger]
            temp_files(Some(names), suffix).to_multiset().count(n) == if valid_utf8(n)
                && encode_utf8("temp"@).is_prefix_of(n) && encode_utf8(suffix).is_suffix_of(n) {
                names.to_multiset().count(n)
            } else {
                0
            },
        forall|i: int, j: int|
            0 <= i < j < temp_files(Some(names), suffix).len() ==> name_le(
                #[trigger] temp_files(Some(names), suffix)[i],
                #[trigger] temp_files(Some(names), suffix)[j],
            ),
{
    let form = |n: Seq<u8>| name_matches(n, encode_utf8("temp"@), encode_utf8(suffix));
    lemma_sorted_is_order(names.filter(form));
    assert forall|n: Seq<u8>| #[trigger]
        temp_files(Some(names), suffix).to_multiset().count(n) == if valid_utf8(n) && encode_utf8(
            "temp"@,
        ).is_prefix_of(n) && encode_utf8(suffix).is_suffix_of(n) {
            names.to_multiset().count(n)
        } else {
            0
        } by {
        lemma_filter_count(names, form, n);
    }
}

/// The files of a kind, as names in the listing.
pub(crate) proof fn lemma_temp_files_contain(names: Seq<Seq<u8>>, suffix: Seq<char>)
    ensures
        forall|n: Seq<u8>| #[trigger]
            temp_files(Some(names), suffix).contains(n) <==> names.contains(n) && valid_utf8(n)
                && encode_utf8("temp"@).is_prefix_of(n) && encode_utf8(suffix).is_suffix_of(n),
{
    broadcast use vstd::seq_lib::group_to_multiset_ensures;

    law_temp_files_exact(names, suffix);
    let files = temp_files(Some(names), suffix);
    assert forall|n: Seq<u8>| #[trigger] files.contains(n) <==> names.contains(n) && valid_utf8(n)
        && encode_utf8("temp"@).is_prefix_of(n) && encode_utf8(suffix).is_suffix_of(n) by {
        assert(files.contains(n) <==> files.to_multiset().count(n) > 0);
        assert(names.contains(n) <==> names.to_multiset().count(n) > 0);
    }
}

/// Whether `name` is the first of the temperature files in a listing: UTF-8, with
/// `temp` in front and `_input` at its end, and no later in byte order than any
/// other of them.
pub open spec fn is_first_input_name(names: Seq<Seq<u8>>, name: Seq<u8>) -> bool {
    &&& is_input_name(names, name)
    &&& forall|other: Seq<u8>| #[trigger] is_input_name(names, other) ==> name_le(name, other)
}

/// Whether `name` is one of the temperature files in a listing.
pub open spec fn is_input_name(names: Seq<Seq<u8>>, name: Seq<u8>) -> bool {
    &&& names.contains(name)
    &&& valid_utf8(name)
    &&& encode_utf8("temp"@).is_prefix_of(name)
    &&& encode_utf8("_input"@).is_suffix_of(name)
}

/// The first temperature file of a directory is the least of the names in its
/// listing that have the form of one. There is none exactly if no name has it, or
/// the directory cannot be listed.
pub proof fn law_first_input_exact(dir: Seq<u8>, names: Seq<Seq<u8>>)
    ensures
        first_input(dir, None) is None,
        match first_input(dir, Some(names)) {
            Some(path) => exists|name: Seq<u8>| #[trigger]
                is_first_input_name(names, name) && path == dir + seq![0x2f] + name,
            None => forall|name: Seq<u8>| !is_input_name(names, name),
        },
{
    let inputs = temp_files(Some(names), "_input"@);
    law_temp_files_exact(names, "_input"@);
    lemma_temp_files_contain(names, "_input"@);
    if inputs.len() > 0 {
        let name = inputs.first();
        assert(inputs.contains(name));
        assert forall|other: Seq<u8>| #[trigger] is_input_name(names, other) implies name_le(
            name,
            other,
        ) by {
            assert(inputs.contains(other));
            let k = choose|k: int| 0 <= k < inputs.len() && inputs[k] == other;
            if k > 0 {
                assert(name_le(inputs[0], inputs[k]));
            } else {
                crate::names::lemma_name_le_reflexive(name);
            }
        }
        assert(is_first_input_name(names, name));
    } else {
        assert forall|name: Seq<u8>| !is_input_name(names, name) by {
            assert(!inputs.contains(name));
        }
    }
}

/// The temperature file of a label file has the label file's name with `_input` in the
/// place of the first `_label`, and the same for the rest behind it.
pub proof fn law_input_of_label_exact(label_file: Seq<u8>, k: int)
    requires
        0 <= k <= label_file.len(),
        forall|i: int|
            0 <= i < k ==> !encode_utf8("_label"@).is_prefix_of(#[trigger] label_file.skip(i)),
    ensures
        k == label_file.len() ==> input_of_label(label_file) == label_file,
        encode_utf8("_label"@).is_prefix_of(label_file.skip(k)) ==> input_of_label(label_file)
            == label_file.take(k) + encode_utf8("_input"@) + input_of_label(label_file.skip(k + 6)),
{
    reveal_strlit("_label");
    vstd::utf8::is_ascii_chars_encode_utf8("_label"@);
    let from = encode_utf8("_label"@);
    let to = encode_utf8("_input"@);
    if k == label_file.len() {
        crate::names::law_replaced_nothing(label_file, from, to);
    }
    if from.is_prefix_of(label_file.skip(k)) {
        crate::names::law_replaced_first(label_file, k, from, to);
    }
}

/// A label is a preferred one exactly if it is `Tctl` or `Package` with anything or
/// nothing behind it.
pub proof fn law_preferred_labels(rest: Seq<char>, label: Seq<char>)
    ensures
        is_preferred_label("Tctl"@ + rest),
        is_preferred_label("Package"@ + rest),
        is_preferred_label(label) <==> {
            ||| label.len() >= 4 && label.take(4) == "Tctl"@
            ||| label.len() >= 7 && label.take(7) == "Package"@
        },
{
    reveal_strlit("Tctl");
    reveal_strlit("Package");
    assert("Tctl"@.is_prefix_of("Tctl"@ + rest));
    assert("Package"@.is_prefix_of("Package"@ + rest));
    if label.len() >= 4 {
        assert(label.take(4) == label.subrange(0, 4));
    }
    if label.len() >= 7 {
        assert(label.take(7) == label.subrange(0, 7));
    }
}

/// The names of CPU monitors are looked for in this order, and no others are.
pub proof fn law_cpu_monitor_names()
    ensures
        cpu_hwmon_names().len() == 3,
        cpu_hwmon_names()[0] == "k10temp"@,
        cpu_hwmon_names()[1] == "coretemp"@,
        cpu_hwmon_names()[2] == "zenpower"@,
        CPU_HWMON_COUNT == 3,
{
}

proof fn lemma_first_named_dir(dirs: Seq<Seq<u8>>, w: World, name: Seq<char>) -> (i: int)
    ensures
        match first_named(named_dirs(dirs, w), name) {
            Some(dir) => {
                &&& 0 <= i < dirs.len()
                &&& dirs[i] == dir
                &&& has_name(w, dirs[i], name)
                &&& forall|j: int| 0 <= j < i ==> !has_name(w, #[trigger] dirs[j], name)
            },
            None => forall|j: int| 0 <= j < dirs.len() ==> !has_name(w, #[trigger] dirs[j], name),
        },
    decreases dirs.len(),
{
    if dirs.len() == 0 {
        0
    } else {
        let rest = dirs.drop_first();
        let found = named_dirs(dirs, w);
        let later = named_dirs(rest, w);
        let k = lemma_first_named_dir(rest, w, name);
        assert forall|j: int| 0 < j < dirs.len() implies #[trigger] dirs[j] == rest[j - 1] by {}
        if has_name(w, dirs[0], name) {
            assert(found.first() == (name, dirs[0]));
            0
        } else {
            if (w.text)(name_file(dirs[0])) is Some {
                assert(found.first().1 == dirs[0]);
                assert(found.drop_first() == later);
            }
            assert(first_named(found, name) == first_named(later, name));
            k + 1
        }
    }
}

/// The first monitor with a name is the one in the least entry, in byte order, of the
/// directory of monitors whose file for the name says that name, white space at its
/// ends aside. There is none exactly if no entry's file says it.
pub proof fn law_first_monitor(w: World, name: Seq<char>)
    ensures
        match first_named(hwmon_dirs_in(w), name) {
            Some(dir) => exists|entry: Seq<u8>| #[trigger]
                is_first_monitor(w, entry, name) && dir == monitor_dir(entry),
            None => forall|entry: Seq<u8>| !is_monitor(w, entry, name),
        },
{
    let listing = (w.listing)(hwmon_root());
    let dirs = device_dirs(listing);
    let i = lemma_first_named_dir(dirs, w, name);
    if let Some(names) = listing {
        let order = sorted_names(names);
        lemma_sorted_is_order(names);
        assert forall|j: int| 0 <= j < order.len() implies #[trigger] dirs[j] == monitor_dir(
            order[j],
        ) by {}
        assert forall|other: Seq<u8>| #[trigger] is_monitor(w, other, name) implies exists|j: int|
            0 <= j < order.len() && #[trigger] order[j] == other && has_name(w, dirs[j], name) by {
            assert(order.contains(other));
            let j = choose|j: int| 0 <= j < order.len() && order[j] == other;
            assert(has_name(w, dirs[j], name));
        }
        if first_named(hwmon_dirs_in(w), name) is Some {
            let entry = order[i];
            assert(order.contains(entry));
            assert(is_monitor(w, entry, name));
            assert forall|other: Seq<u8>| #[trigger] is_monitor(w, other, name) implies name_le(
                entry,
                other,
            ) by {
                let j = choose|j: int|
                    0 <= j < order.len() && #[trigger] order[j] == other && has_name(
                        w,
                        dirs[j],
                        name,
                    );
                if j == i {
                    crate::names::lemma_name_le_reflexive(entry);
                } else {
                    assert(i < j);
                    assert(name_le(order[i], order[j]));
                }
            }
            assert(is_first_monitor(w, entry, name));
        }
    }
}

/// Whether the monitors `mons` are exactly those in the entries `order` of the
/// directory of monitors whose name can be read: the name without white space at its
/// ends, and the path of the directory, in the order of the entries.
pub open spec fn are_monitors_of(
    mons: Seq<(Seq<char>, Seq<u8>)>,
    order: Seq<Seq<u8>>,
    w: World,
) -> bool {
    mons == order.filter(
        |e: Seq<u8>| (w.text)(monitor_dir(e) + seq![0x2f] + encode_utf8("name"@)) is Some,
    ).map_values(
        |e: Seq<u8>|
            (
                trim_of((w.text)(monitor_dir(e) + seq![0x2f] + encode_utf8("name"@))->0),
                monitor_dir(e),
            ),
    )
}

proof fn lemma_named_dirs(order: Seq<Seq<u8>>, w: World)
    ensures
        are_monitors_of(
            named_dirs(order.map_values(|n: Seq<u8>| path_of(hwmon_root(), n)), w),
            order,
            w,
        ),
    decreases order.len(),
{
    let to_path = |n: Seq<u8>| path_of(hwmon_root(), n);
    let readable = |e: Seq<u8>|
        (w.text)(monitor_dir(e) + seq![0x2f] + encode_utf8("name"@)) is Some;
    let monitor = |e: Seq<u8>|
        (
            trim_of((w.text)(monitor_dir(e) + seq![0x2f] + encode_utf8("name"@))->0),
            monitor_dir(e),
        );
    let dirs = order.map_values(to_path);
    reveal(Seq::filter);
    if order.len() > 0 {
        let first = seq![order.first()];
        let rest = order.drop_first();
        lemma_named_dirs(rest, w);
        assert(dirs.drop_first() == rest.map_values(to_path));
        assert(dirs.first() == monitor_dir(order.first()));
        assert(order == first + rest);
        Seq::filter_distributes_over_add(first, rest, readable);
        assert(first.drop_last() == Seq::<Seq<u8>>::empty());
        assert(first.drop_last().filter(readable) == Seq::<Seq<u8>>::empty());
        let kept = if readable(order.first()) {
            first
        } else {
            Seq::empty()
        };
        assert(first.filter(readable) == kept);
        assert((kept + rest.filter(readable)).map_values(monitor) == kept.map_values(monitor)
            + rest.filter(readable).map_values(monitor));
        assert(named_dirs(dirs, w) == kept.map_values(monitor) + named_dirs(
            rest.map_values(to_path),
            w,
        ));
    } else {
        assert(order.filter(readable) == order);
        assert(order.map_values(monitor) == Seq::<(Seq<char>, Seq<u8>)>::empty());
    }
}

/// A scan of a world that stays as it is finds every entry of the directory of monitors
/// whose name can be read, as often as it is listed, in byte order of the entries,
/// and nothing else.
pub proof fn law_scan_exact(w: World)
    ensures
        match (w.listing)(encode_utf8("/sys/class/hwmon"@)) {
            Some(names) => exists|order: Seq<Seq<u8>>| #[trigger]
                is_order_of(order, names) && are_monitors_of(
                    ScanView::start().run(w).found,
                    order,
                    w,
                ),
            None => ScanView::start().run(w).found.len() == 0,
        },
{
    law_scan_finds_monitors(w);
    if let Some(names) = (w.listing)(hwmon_root()) {
        lemma_sorted_is_order(names);
        lemma_named_dirs(sorted_names(names), w);
        assert(is_order_of(sorted_names(names), names));
    }
}

/// The view of a scan holds all that is known, in its order.
pub proof fn law_contents_of_scan(scan: HwmonScan, mons: Seq<Hwmon>)
    ensures
        scan@.listed == scan.listed,
        scan@.todo.len() == scan.todo@.len(),
        forall|i: int| 0 <= i < scan.todo@.len() ==> #[trigger] scan@.todo[i] == scan.todo@[i]@,
        scan@.found.len() == scan.found@.len(),
        forall|i: int|
            0 <= i < scan.found@.len() ==> #[trigger] scan@.found[i] == (
                scan.found@[i].name@,
                scan.found@[i].dir@,
            ),
        mons_of(mons).len() == mons.len(),
        forall|i: int|
            0 <= i < mons.len() ==> #[trigger] mons_of(mons)[i] == (mons[i].name@, mons[i].dir@),
{
}

/// A run of the scan asks what the scan asks, goes on by the world's answer, and ends
/// when there is nothing to ask.
pub proof fn law_scan_run_follows_steps(s: ScanView, w: World)
    ensures
        match s.request() {
            Some(request) => s.run(w) == s.step(w.answer(request)).run(w),
            None => s.run(w) == s,
        },
{
}

} // verus!
