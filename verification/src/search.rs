//! The search for the sensor that tells the CPU temperature.

use crate::hwmon::{
    cpu_hwmon_name, cpu_hwmon_names, find_named, first_input, first_named, first_temp_input,
    hwmon_dirs, hwmon_dirs_in, input_name, input_of_label, is_preferred_label, label_files,
    is_first_input_name, is_first_monitor, is_input_name, is_monitor, mons_of, monitor_dir,
    preferred_label, temp_files, Hwmon, HwmonScan, ScanView, CPU_HWMON_COUNT,
};
use crate::io::{advances, request_view, Reply, ReplyView, Request, RequestView, World};
use crate::names::{copy_of, join, name_le, names_of, path_of};
use crate::text::{trim, trim_of};
use vstd::prelude::*;
use vstd::utf8::{encode_utf8, valid_utf8};

verus! {

/// The path of the temperature file of the first of the label files `labels`
/// whose label is a preferred one and whose temperature file exists.
pub open spec fn labelled_input(dir: Seq<u8>, labels: Seq<Seq<u8>>, w: World) -> Option<Seq<u8>>
    decreases labels.len(),
{
    if labels.len() == 0 {
        None
    } else {
        let input = path_of(dir, input_of_label(labels.first()));
        match (w.text)(path_of(dir, labels.first())) {
            Some(text) if is_preferred_label(trim_of(text)) && (w.exists)(input) => Some(input),
            _ => labelled_input(dir, labels.drop_first(), w),
        }
    }
}

/// The first path of two.
pub open spec fn first_path(first: Option<Seq<u8>>, second: Option<Seq<u8>>) -> Option<Seq<u8>> {
    match first {
        Some(path) => Some(path),
        None => second,
    }
}

/// The sensor to use in the directory of one monitor: one with a preferred
/// label, or else the first.
pub open spec fn device_sensor(dir: Seq<u8>, w: World) -> Option<Seq<u8>> {
    let names = (w.listing)(dir);
    first_path(labelled_input(dir, temp_files(names, "_label"@), w), first_input(dir, names))
}

/// The CPU sensor, where the names of CPU monitors before the place `k` have been
/// tried. Of the monitors with one name only the first is looked at.
pub open spec fn cpu_sensor_from(
    mons: Seq<(Seq<char>, Seq<u8>)>,
    k: nat,
    w: World,
) -> Option<Seq<u8>>
    decreases CPU_HWMON_COUNT - k,
{
    if k >= CPU_HWMON_COUNT {
        None
    } else {
        let later = cpu_sensor_from(mons, k + 1, w);
        match first_named(mons, cpu_hwmon_names()[k as int]) {
            Some(dir) => first_path(device_sensor(dir, w), later),
            None => later,
        }
    }
}

/// The path of the CPU sensor's file.
pub open spec fn cpu_sensor_in(w: World) -> Option<Seq<u8>> {
    cpu_sensor_from(hwmon_dirs_in(w), 0, w)
}

/// The monitor that is being looked at.
pub struct Place {
    /// All monitors.
    pub mons: Vec<Hwmon>,
    /// The place of its name among those of CPU monitors.
    pub wanted: usize,
    /// The path of its directory.
    pub dir: Vec<u8>,
}

/// A search for the CPU sensor.
pub enum CpuSearch {
    /// The monitors are being looked up.
    Scan(HwmonScan),
    /// The label files of a monitor are to be listed.
    Labels(Place),
    /// The first of the label files is to be read.
    Label(Place, Vec<Vec<u8>>),
    /// A temperature file may exist, and label files are left.
    Probe(Place, Vec<Vec<u8>>, Vec<u8>),
    /// The temperature files of a monitor are to be listed.
    Inputs(Place),
    /// The search has ended with the path of a file, or with none.
    Done(Option<Vec<u8>>),
}

/// The monitor that is being looked at, as values.
pub ghost struct PlaceView {
    /// All monitors.
    pub mons: Seq<(Seq<char>, Seq<u8>)>,
    /// The place of its name among those of CPU monitors.
    pub wanted: nat,
    /// The path of its directory.
    pub dir: Seq<u8>,
}

/// A search for the CPU sensor, as values.
pub ghost enum SearchView {
    /// The monitors are being looked up.
    Scan(ScanView),
    /// The label files of a monitor are to be listed.
    Labels(PlaceView),
    /// The first of the label files is to be read.
    Label(PlaceView, Seq<Seq<u8>>),
    /// A temperature file may exist, and label files are left.
    Probe(PlaceView, Seq<Seq<u8>>, Seq<u8>),
    /// The temperature files of a monitor are to be listed.
    Inputs(PlaceView),
    /// The search has ended with the path of a file, or with none.
    Done(Option<Seq<u8>>),
}

impl View for Place {
    type V = PlaceView;

    open spec fn view(&self) -> PlaceView {
        PlaceView { mons: mons_of(self.mons@), wanted: self.wanted as nat, dir: self.dir@ }
    }
}

impl View for CpuSearch {
    type V = SearchView;

    open spec fn view(&self) -> SearchView {
        match self {
            CpuSearch::Scan(scan) => SearchView::Scan(scan@),
            CpuSearch::Labels(place) => SearchView::Labels(place@),
            CpuSearch::Label(place, labels) => SearchView::Label(place@, names_of(labels@)),
            CpuSearch::Probe(place, labels, input) => SearchView::Probe(
                place@,
                names_of(labels@),
                input@,
            ),
            CpuSearch::Inputs(place) => SearchView::Inputs(place@),
            CpuSearch::Done(Some(path)) => SearchView::Done(Some(path@)),
            CpuSearch::Done(None) => SearchView::Done(None),
        }
    }
}

/// The search at the first monitor with a name from the place `k` on.
pub open spec fn look_from(mons: Seq<(Seq<char>, Seq<u8>)>, k: nat) -> SearchView
    decreases CPU_HWMON_COUNT - k,
{
    if k >= CPU_HWMON_COUNT {
        SearchView::Done(None)
    } else {
        match first_named(mons, cpu_hwmon_names()[k as int]) {
            Some(dir) => SearchView::Labels(PlaceView { mons, wanted: k, dir }),
            None => look_from(mons, k + 1),
        }
    }
}

/// The search with the label files `labels` left.
pub open spec fn next_label(place: PlaceView, labels: Seq<Seq<u8>>) -> SearchView {
    if labels.len() == 0 {
        SearchView::Inputs(place)
    } else {
        SearchView::Label(place, labels)
    }
}

/// How many questions a search may take from the place `k` on.
pub open spec fn cost_from(mons: Seq<(Seq<char>, Seq<u8>)>, k: nat, w: World) -> nat
    decreases CPU_HWMON_COUNT - k,
{
    if k >= CPU_HWMON_COUNT {
        0
    } else {
        let later = cost_from(mons, k + 1, w);
        match first_named(mons, cpu_hwmon_names()[k as int]) {
            Some(dir) => 2 + 2 * temp_files((w.listing)(dir), "_label"@).len() + later,
            None => later,
        }
    }
}

impl PlaceView {
    /// The sensor of a monitor after this one.
    pub open spec fn later(self, w: World) -> Option<Seq<u8>> {
        cpu_sensor_from(self.mons, self.wanted + 1, w)
    }

    /// How many questions the monitors after this one may take.
    pub open spec fn later_cost(self, w: World) -> nat {
        cost_from(self.mons, self.wanted + 1, w)
    }
}

impl SearchView {
    /// Nothing is known yet.
    pub open spec fn start() -> Self {
        SearchView::Scan(ScanView::start())
    }

    /// What to ask next. Nothing, if the search has ended.
    pub open spec fn request(self) -> Option<RequestView> {
        match self {
            SearchView::Scan(scan) => scan.request(),
            SearchView::Labels(place) => Some(RequestView::ListDir(place.dir)),
            SearchView::Label(place, labels) => Some(
                RequestView::ReadFile(path_of(place.dir, labels.first())),
            ),
            SearchView::Probe(place, labels, input) => Some(RequestView::Exists(input)),
            SearchView::Inputs(place) => Some(RequestView::ListDir(place.dir)),
            SearchView::Done(result) => None,
        }
    }

    /// The search after a reply.
    pub open spec fn step(self, reply: ReplyView) -> Self {
        match self {
            SearchView::Scan(scan) => {
                let next = scan.step(reply);
                if next.request() is Some {
                    SearchView::Scan(next)
                } else {
                    look_from(next.found, 0)
                }
            },
            SearchView::Labels(place) => next_label(place, temp_files(reply.listing(), "_label"@)),
            SearchView::Label(place, labels) => match reply.text() {
                Some(text) if is_preferred_label(trim_of(text)) => SearchView::Probe(
                    place,
                    labels.drop_first(),
                    path_of(place.dir, input_of_label(labels.first())),
                ),
                _ => next_label(place, labels.drop_first()),
            },
            SearchView::Probe(place, labels, input) => if reply.found() {
                SearchView::Done(Some(input))
            } else {
                next_label(place, labels)
            },
            SearchView::Inputs(place) => match first_input(place.dir, reply.listing()) {
                Some(path) => SearchView::Done(Some(path)),
                None => look_from(place.mons, place.wanted + 1),
            },
            SearchView::Done(result) => self,
        }
    }

    /// Whether this is a state that a search can be in.
    pub open spec fn valid(self) -> bool {
        match self {
            SearchView::Scan(scan) => scan.request() is Some,
            SearchView::Labels(place) => place.wanted < CPU_HWMON_COUNT,
            SearchView::Label(place, labels) => place.wanted < CPU_HWMON_COUNT && labels.len() > 0,
            SearchView::Probe(place, labels, input) => place.wanted < CPU_HWMON_COUNT,
            SearchView::Inputs(place) => place.wanted < CPU_HWMON_COUNT,
            SearchView::Done(result) => true,
        }
    }

    /// What the search will end with, in a world that stays as it is.
    pub open spec fn outcome(self, w: World) -> Option<Seq<u8>> {
        match self {
            SearchView::Scan(scan) => cpu_sensor_from(scan.outcome(w), 0, w),
            SearchView::Labels(place) => first_path(device_sensor(place.dir, w), place.later(w)),
            SearchView::Label(place, labels) => first_path(
                labelled_input(place.dir, labels, w),
                first_path(first_input(place.dir, (w.listing)(place.dir)), place.later(w)),
            ),
            SearchView::Probe(place, labels, input) => if (w.exists)(input) {
                Some(input)
            } else {
                first_path(
                    labelled_input(place.dir, labels, w),
                    first_path(first_input(place.dir, (w.listing)(place.dir)), place.later(w)),
                )
            },
            SearchView::Inputs(place) => first_path(
                first_input(place.dir, (w.listing)(place.dir)),
                place.later(w),
            ),
            SearchView::Done(result) => result,
        }
    }

    /// How many questions may be left, in a world that stays as it is.
    pub open spec fn remaining(self, w: World) -> nat {
        match self {
            SearchView::Scan(scan) => scan.remaining(w) + cost_from(scan.outcome(w), 0, w),
            SearchView::Labels(place) => 2 + 2 * temp_files(
                (w.listing)(place.dir),
                "_label"@,
            ).len() + place.later_cost(w),
            SearchView::Label(place, labels) => 1 + 2 * labels.len() + place.later_cost(w),
            SearchView::Probe(place, labels, input) => 2 + 2 * labels.len() + place.later_cost(w),
            SearchView::Inputs(place) => 1 + place.later_cost(w),
            SearchView::Done(result) => 0,
        }
    }

    /// Where the search is, counted down to 0 at its end.
    pub open spec fn stage(self) -> nat {
        match self {
            SearchView::Scan(scan) => 2 * CPU_HWMON_COUNT as nat + 1 + scan.stage(),
            SearchView::Labels(place) => (2 * (CPU_HWMON_COUNT - place.wanted) + 1) as nat,
            SearchView::Label(place, labels) => (2 * (CPU_HWMON_COUNT - place.wanted)) as nat,
            SearchView::Probe(place, labels, input) => (2 * (CPU_HWMON_COUNT
                - place.wanted)) as nat,
            SearchView::Inputs(place) => (2 * (CPU_HWMON_COUNT - place.wanted)) as nat,
            SearchView::Done(result) => 0,
        }
    }

    /// How much there is to do in the stage that the search is in.
    pub open spec fn work(self) -> nat {
        match self {
            SearchView::Scan(scan) => scan.todo.len(),
            SearchView::Label(place, labels) => 2 * labels.len() + 1,
            SearchView::Probe(place, labels, input) => 2 * labels.len() + 2,
            SearchView::Inputs(place) => 1,
            _ => 0,
        }
    }

    /// The search after each of its questions has been answered by `w`.
    pub open spec fn run(self, w: World) -> Self
        decreases self.remaining(w),
        when self.valid()
        via Self::run_ends
    {
        match self.request() {
            Some(request) => self.step(w.answer(request)).run(w),
            None => self,
        }
    }

    #[via_fn]
    proof fn run_ends(self, w: World) {
        if self.request() is Some {
            law_search_step(self, w);
        }
    }
}

/// A search never leaves its valid states.
proof fn lemma_step_valid(s: SearchView, reply: ReplyView)
    requires
        s.valid(),
    ensures
        s.step(reply).valid(),
{
    match s {
        SearchView::Scan(scan) => {
            lemma_look_valid(scan.step(reply).found, 0);
        },
        SearchView::Inputs(place) => {
            lemma_look_valid(place.mons, place.wanted + 1);
        },
        _ => {},
    }
}

proof fn lemma_look_valid(mons: Seq<(Seq<char>, Seq<u8>)>, k: nat)
    ensures
        look_from(mons, k).valid(),
    decreases CPU_HWMON_COUNT - k,
{
    if k < CPU_HWMON_COUNT {
        lemma_look_valid(mons, k + 1);
    }
}

proof fn lemma_look_from(mons: Seq<(Seq<char>, Seq<u8>)>, k: nat, w: World)
    ensures
        look_from(mons, k).outcome(w) == cpu_sensor_from(mons, k, w),
        look_from(mons, k).remaining(w) == cost_from(mons, k, w),
    decreases CPU_HWMON_COUNT - k,
{
    if k < CPU_HWMON_COUNT && first_named(mons, cpu_hwmon_names()[k as int]) is None {
        lemma_look_from(mons, k + 1, w);
    }
}

/// Each answer of a world brings the search nearer to its end, and to the same
/// sensor.
pub proof fn law_search_step(s: SearchView, w: World)
    requires
        s.valid(),
        s.request() is Some,
    ensures
        s.step(w.answer(s.request()->0)).valid(),
        s.step(w.answer(s.request()->0)).outcome(w) == s.outcome(w),
        s.step(w.answer(s.request()->0)).remaining(w) < s.remaining(w),
{
    lemma_step_valid(s, w.answer(s.request()->0));
    match s {
        SearchView::Scan(scan) => {
            crate::hwmon::law_scan_step(scan, w);
            let next = scan.step(w.answer(scan.request()->0));
            if next.request() is None {
                crate::hwmon::law_scan_end(next, w);
                lemma_look_from(next.found, 0, w);
            }
        },
        SearchView::Inputs(place) => {
            lemma_look_from(place.mons, place.wanted + 1, w);
        },
        SearchView::Label(place, labels) => {
            reveal_with_fuel(labelled_input, 2);
        },
        _ => {},
    }
}

proof fn lemma_look_stage(mons: Seq<(Seq<char>, Seq<u8>)>, k: nat)
    requires
        k <= CPU_HWMON_COUNT,
    ensures
        look_from(mons, k).stage() <= 2 * (CPU_HWMON_COUNT - k) + 1,
        k == CPU_HWMON_COUNT ==> look_from(mons, k).stage() == 0,
    decreases CPU_HWMON_COUNT - k,
{
    if k < CPU_HWMON_COUNT {
        lemma_look_stage(mons, k + 1);
    }
}

/// Whatever is answered, the search goes on to a later stage, or stays in its
/// stage with less to do. So it ends, even where the system changes meanwhile.
pub proof fn law_search_always_advances(s: SearchView, reply: ReplyView)
    requires
        s.valid(),
        s.request() is Some,
    ensures
        advances((s.stage(), s.work()), (s.step(reply).stage(), s.step(reply).work())),
{
    match s {
        SearchView::Scan(scan) => {
            crate::hwmon::law_scan_always_advances(scan, reply);
            lemma_look_stage(scan.step(reply).found, 0);
        },
        SearchView::Inputs(place) => {
            lemma_look_stage(place.mons, place.wanted + 1);
        },
        _ => {},
    }
}

/// In a world that stays as it is, a search whose questions are answered ends
/// with the outcome that its state determines.
pub proof fn law_search_run(s: SearchView, w: World)
    requires
        s.valid(),
    ensures
        s.run(w) == SearchView::Done(s.outcome(w)),
    decreases s.remaining(w),
{
    if let Some(request) = s.request() {
        law_search_step(s, w);
        law_search_run(s.step(w.answer(request)), w);
    }
}

/// In a world that stays as it is, a search from the start ends with the CPU
/// sensor of that world.
pub proof fn law_finds_cpu_sensor(w: World)
    ensures
        SearchView::start().run(w) == SearchView::Done(cpu_sensor_in(w)),
{
    law_search_run(SearchView::start(), w);
    assert(ScanView::start().outcome(w) =~= hwmon_dirs_in(w));
}

/// Whether a label file is one whose temperature file is to be used: it has a
/// preferred label, and the temperature file exists.
pub open spec fn is_usable_label(dir: Seq<u8>, label_file: Seq<u8>, w: World) -> bool {
    &&& (w.text)(path_of(dir, label_file)) is Some
    &&& is_preferred_label(trim_of((w.text)(path_of(dir, label_file))->0))
    &&& (w.exists)(path_of(dir, input_of_label(label_file)))
}

/// Of the label files of a monitor the first usable one decides, and none is
/// passed over.
pub proof fn law_first_usable_label(dir: Seq<u8>, labels: Seq<Seq<u8>>, w: World)
    ensures
        match labelled_input(dir, labels, w) {
            Some(path) => exists|i: int|
                0 <= i < labels.len() && path == path_of(dir, input_of_label(labels[i]))
                    && #[trigger] is_usable_label(dir, labels[i], w) && forall|j: int|
                    0 <= j < i ==> !#[trigger] is_usable_label(dir, labels[j], w),
            None => forall|j: int|
                0 <= j < labels.len() ==> !#[trigger] is_usable_label(dir, labels[j], w),
        },
    decreases labels.len(),
{
    if labels.len() > 0 {
        let rest = labels.drop_first();
        law_first_usable_label(dir, rest, w);
        if is_usable_label(dir, labels[0], w) {
            assert(labelled_input(dir, labels, w) == Some(
                path_of(dir, input_of_label(labels[0])),
            ));
        } else {
            assert(labelled_input(dir, labels, w) == labelled_input(dir, rest, w));
            match labelled_input(dir, rest, w) {
                Some(path) => {
                    let i = choose|i: int|
                        0 <= i < rest.len() && path == path_of(dir, input_of_label(rest[i]))
                            && #[trigger] is_usable_label(dir, rest[i], w) && forall|j: int|
                            0 <= j < i ==> !#[trigger] is_usable_label(dir, rest[j], w);
                    assert(labels[i + 1] == rest[i]);
                    assert(is_usable_label(dir, labels[i + 1], w));
                    assert forall|j: int| 0 <= j < i + 1 implies !#[trigger] is_usable_label(
                        dir,
                        labels[j],
                        w,
                    ) by {
                        if j > 0 {
                            assert(labels[j] == rest[j - 1]);
                        }
                    }
                },
                None => {
                    assert forall|j: int| 0 <= j < labels.len() implies !#[trigger] is_usable_label(
                        dir,
                        labels[j],
                        w,
                    ) by {
                        if j > 0 {
                            assert(labels[j] == rest[j - 1]);
                        }
                    }
                },
            }
        }
    }
}

/// The sensor of the first monitor with the name of a CPU monitor at the place
/// `k`.
pub open spec fn sensor_at(mons: Seq<(Seq<char>, Seq<u8>)>, k: nat, w: World) -> Option<Seq<u8>> {
    match first_named(mons, cpu_hwmon_names()[k as int]) {
        Some(dir) => device_sensor(dir, w),
        None => None,
    }
}

/// The names of CPU monitors are preferred in their order: the sensor is that
/// of the first name that has one.
pub proof fn law_monitor_preference(w: World)
    ensures
        cpu_sensor_in(w) == first_path(
            sensor_at(hwmon_dirs_in(w), 0, w),
            first_path(
                sensor_at(hwmon_dirs_in(w), 1, w),
                sensor_at(hwmon_dirs_in(w), 2, w),
            ),
        ),
{
    reveal_with_fuel(cpu_sensor_from, 4);
}

/// The search at the first monitor with a name from the place `k` on.
fn look(mons: Vec<Hwmon>, k: usize) -> (r: CpuSearch)
    ensures
        r@ == look_from(mons_of(mons@), k as nat),
    decreases CPU_HWMON_COUNT - k,
{
    if k >= CPU_HWMON_COUNT {
        return CpuSearch::Done(None);
    }
    match find_named(&mons, cpu_hwmon_name(k)) {
        Some(dir) => CpuSearch::Labels(Place { mons, wanted: k, dir }),
        None => look(mons, k + 1),
    }
}

/// The search with the label files `labels` left.
fn read_label(place: Place, labels: Vec<Vec<u8>>) -> (r: CpuSearch)
    ensures
        r@ == next_label(place@, names_of(labels@)),
{
    assert(names_of(labels@).len() == labels@.len());
    if labels.len() == 0 {
        CpuSearch::Inputs(place)
    } else {
        CpuSearch::Label(place, labels)
    }
}

/// Starts to search for the CPU sensor.
pub fn find_cpu_sensor() -> (r: CpuSearch)
    ensures
        r@ == SearchView::start(),
        r@.valid(),
        forall|w: World| r@.outcome(w) == cpu_sensor_in(w),
{
    CpuSearch::Scan(hwmon_dirs())
}

impl CpuSearch {
    /// What to ask next. Nothing, if the search has ended.
    pub fn request(&self) -> (r: Option<Request>)
        requires
            self@.valid(),
        ensures
            self@.request() == request_view(r),
    {
        match self {
            CpuSearch::Scan(scan) => scan.request(),
            CpuSearch::Labels(place) => Some(Request::ListDir(copy_of(place.dir.as_slice()))),
            CpuSearch::Label(place, labels) => {
                assert(names_of(labels@).first() == labels@[0]@);
                Some(Request::ReadFile(join(place.dir.as_slice(), labels[0].as_slice())))
            },
            CpuSearch::Probe(place, labels, input) => Some(
                Request::Exists(copy_of(input.as_slice())),
            ),
            CpuSearch::Inputs(place) => Some(Request::ListDir(copy_of(place.dir.as_slice()))),
            CpuSearch::Done(result) => None,
        }
    }

    /// Takes in the reply to the last request.
    pub fn step(self, reply: Reply) -> (r: Self)
        requires
            self@.valid(),
        ensures
            r@ == self@.step(reply@),
            r@.valid(),
    {
        proof {
            lemma_step_valid(self@, reply@);
        }
        match self {
            CpuSearch::Scan(scan) => {
                let next = scan.step(reply);
                if next.request().is_some() {
                    CpuSearch::Scan(next)
                } else {
                    look(next.found, 0)
                }
            },
            CpuSearch::Labels(place) => read_label(place, label_files(reply.listing())),
            CpuSearch::Label(place, labels) => {
                let ghost all = labels@;
                let mut labels = labels;
                assert(names_of(all).first() == all[0]@);
                let label_file = labels.remove(0);
                assert(names_of(labels@) =~= names_of(all).drop_first());
                match reply.text() {
                    Some(text) => {
                        if preferred_label(trim(text.as_str())) {
                            let name = input_name(label_file.as_slice());
                            let input = join(place.dir.as_slice(), name.as_slice());
                            CpuSearch::Probe(place, labels, input)
                        } else {
                            read_label(place, labels)
                        }
                    },
                    None => read_label(place, labels),
                }
            },
            CpuSearch::Probe(place, labels, input) => {
                if reply.found() {
                    CpuSearch::Done(Some(input))
                } else {
                    read_label(place, labels)
                }
            },
            CpuSearch::Inputs(place) => match first_temp_input(
                place.dir.as_slice(),
                reply.listing(),
            ) {
                Some(path) => CpuSearch::Done(Some(path)),
                None => look(place.mons, place.wanted + 1),
            },
            CpuSearch::Done(result) => CpuSearch::Done(result),
        }
    }
}

/// Whether `file` is a label file of the directory `dir`, which lists `names`, that
/// marks the sensor for the CPU as a whole: its name is UTF-8, begins with `temp` and
/// ends with `_label`, its text begins with `Tctl` or `Package`, white space at its
/// ends aside, and its temperature file exists.
pub open spec fn marks_cpu(dir: Seq<u8>, names: Seq<Seq<u8>>, file: Seq<u8>, w: World) -> bool {
    let text = (w.text)(dir + seq![0x2f] + file);
    &&& names.contains(file)
    &&& valid_utf8(file)
    &&& encode_utf8("temp"@).is_prefix_of(file)
    &&& encode_utf8("_label"@).is_suffix_of(file)
    &&& text is Some
    &&& "Tctl"@.is_prefix_of(trim_of(text->0)) || "Package"@.is_prefix_of(trim_of(text->0))
    &&& (w.exists)(dir + seq![0x2f] + input_of_label(file))
}

/// Whether `file` is the first such label file, in byte order.
pub open spec fn is_first_mark(
    dir: Seq<u8>,
    names: Seq<Seq<u8>>,
    file: Seq<u8>,
    w: World,
) -> bool {
    &&& marks_cpu(dir, names, file, w)
    &&& forall|other: Seq<u8>| #[trigger] marks_cpu(dir, names, other, w) ==> name_le(file, other)
}

/// Whether `path` is the sensor of a monitor in the directory `dir`: the temperature
/// file of the first label file that marks the CPU as a whole, or, where no label
/// file does, the first temperature file.
pub open spec fn is_sensor_of(dir: Seq<u8>, path: Seq<u8>, w: World) -> bool {
    &&& (w.listing)(dir) is Some
    &&& {
        let names = (w.listing)(dir)->0;
        ||| exists|file: Seq<u8>| #[trigger]
            is_first_mark(dir, names, file, w) && path == dir + seq![0x2f] + input_of_label(file)
        ||| {
            &&& forall|file: Seq<u8>| !marks_cpu(dir, names, file, w)
            &&& exists|name: Seq<u8>| #[trigger]
                is_first_input_name(names, name) && path == dir + seq![0x2f] + name
        }
    }
}

/// Whether a directory holds no sensor: it cannot be listed, or no label file in it
/// marks the CPU as a whole and no name has the form of a temperature file.
pub open spec fn has_no_sensor(dir: Seq<u8>, w: World) -> bool {
    (w.listing)(dir) matches Some(names) ==> {
        &&& forall|file: Seq<u8>| !marks_cpu(dir, names, file, w)
        &&& forall|name: Seq<u8>| !is_input_name(names, name)
    }
}

/// Of all label files in a listing that mark the CPU as a whole the least in byte order
/// decides, however many label files there are. There is no decision exactly if none
/// of them does.
pub proof fn law_first_mark(dir: Seq<u8>, names: Seq<Seq<u8>>, w: World)
    ensures
        match labelled_input(dir, temp_files(Some(names), "_label"@), w) {
            Some(path) => exists|file: Seq<u8>| #[trigger]
                is_first_mark(dir, names, file, w) && path == dir + seq![0x2f] + input_of_label(
                    file,
                ),
            None => forall|file: Seq<u8>| !marks_cpu(dir, names, file, w),
        },
{
    let labels = temp_files(Some(names), "_label"@);
    crate::hwmon::law_temp_files_exact(names, "_label"@);
    crate::hwmon::lemma_temp_files_contain(names, "_label"@);
    law_first_usable_label(dir, labels, w);
    assert forall|file: Seq<u8>| #[trigger] marks_cpu(dir, names, file, w) <==> labels.contains(
        file,
    ) && is_usable_label(dir, file, w) by {}
    match labelled_input(dir, labels, w) {
        Some(path) => {
            let i = choose|i: int|
                0 <= i < labels.len() && path == path_of(dir, input_of_label(labels[i]))
                    && #[trigger] is_usable_label(dir, labels[i], w) && forall|j: int|
                    0 <= j < i ==> !#[trigger] is_usable_label(dir, labels[j], w);
            let file = labels[i];
            assert(labels.contains(file));
            assert(marks_cpu(dir, names, file, w));
            assert forall|other: Seq<u8>| #[trigger] marks_cpu(dir, names, other, w) implies name_le(
                file,
                other,
            ) by {
                let j = choose|j: int| 0 <= j < labels.len() && labels[j] == other;
                assert(is_usable_label(dir, labels[j], w));
                if j == i {
                    crate::names::lemma_name_le_reflexive(file);
                } else {
                    assert(i < j);
                    assert(name_le(labels[i], labels[j]));
                }
            }
            assert(is_first_mark(dir, names, file, w));
        },
        None => {
            assert forall|file: Seq<u8>| !marks_cpu(dir, names, file, w) by {
                if labels.contains(file) {
                    let j = choose|j: int| 0 <= j < labels.len() && labels[j] == file;
                    assert(!is_usable_label(dir, labels[j], w));
                }
            }
        },
    }
}

/// The sensor of a monitor, by the names that its directory lists.
pub proof fn law_device_sensor(dir: Seq<u8>, w: World)
    ensures
        match device_sensor(dir, w) {
            Some(path) => is_sensor_of(dir, path, w),
            None => has_no_sensor(dir, w),
        },
{
    if let Some(names) = (w.listing)(dir) {
        law_first_mark(dir, names, w);
        crate::hwmon::law_first_input_exact(dir, names);
    }
}

/// Whether the first monitor with the name `name`, if there is one, holds no sensor.
pub open spec fn is_passed_over(w: World, name: Seq<char>) -> bool {
    forall|entry: Seq<u8>| #[trigger]
        is_first_monitor(w, entry, name) ==> has_no_sensor(monitor_dir(entry), w)
}

/// Whether `path` is the sensor of the first monitor with the name `name`.
pub open spec fn is_sensor_by_name(w: World, name: Seq<char>, path: Seq<u8>) -> bool {
    exists|entry: Seq<u8>| #[trigger]
        is_first_monitor(w, entry, name) && is_sensor_of(monitor_dir(entry), path, w)
}

proof fn lemma_sensor_at(w: World, k: nat)
    requires
        k < 3,
    ensures
        match sensor_at(hwmon_dirs_in(w), k, w) {
            Some(path) => is_sensor_by_name(w, cpu_hwmon_names()[k as int], path),
            None => is_passed_over(w, cpu_hwmon_names()[k as int]),
        },
{
    let name = cpu_hwmon_names()[k as int];
    crate::hwmon::law_first_monitor(w, name);
    match first_named(hwmon_dirs_in(w), name) {
        Some(dir) => {
            law_device_sensor(dir, w);
            let entry = choose|entry: Seq<u8>| #[trigger]
                is_first_monitor(w, entry, name) && dir == monitor_dir(entry);
            assert(is_first_monitor(w, entry, name));
            assert forall|other: Seq<u8>| #[trigger] is_first_monitor(w, other, name) implies other
                == entry by {
                assert(name_le(entry, other));
                assert(name_le(other, entry));
                crate::names::lemma_name_le_antisymmetric(entry, other);
            }
        },
        None => {
            assert forall|entry: Seq<u8>| !is_first_monitor(w, entry, name) by {
                assert(!is_monitor(w, entry, name));
            }
        },
    }
}

/// In a world that stays as it is, the search ends with the sensor of the first
/// `k10temp` monitor; if that has none, of the first `coretemp` monitor; if that has
/// none, of the first `zenpower` monitor. It ends with nothing exactly if none of the
/// three has a sensor.
pub proof fn law_search_ends_with_sensor(w: World)
    ensures
        ({
            let a = "k10temp"@;
            let b = "coretemp"@;
            let c = "zenpower"@;
            let end = SearchView::start().run(w);
            &&& end is Done
            &&& match end->Done_0 {
                Some(path) => {
                    ||| is_sensor_by_name(w, a, path)
                    ||| is_passed_over(w, a) && is_sensor_by_name(w, b, path)
                    ||| is_passed_over(w, a) && is_passed_over(w, b) && is_sensor_by_name(
                        w,
                        c,
                        path,
                    )
                },
                None => is_passed_over(w, a) && is_passed_over(w, b) && is_passed_over(w, c),
            }
        }),
{
    law_finds_cpu_sensor(w);
    law_monitor_preference(w);
    lemma_sensor_at(w, 0);
    lemma_sensor_at(w, 1);
    lemma_sensor_at(w, 2);
}

/// Where a label file of the first `k10temp` monitor marks the CPU as a whole, the
/// search ends with the temperature file of the least of them, whatever else the
/// system holds. Where there is no `k10temp` monitor, the same holds of the first
/// `coretemp` monitor.
pub proof fn law_search_prefers_marks(
    w: World,
    name: Seq<char>,
    entry: Seq<u8>,
    names: Seq<Seq<u8>>,
    file: Seq<u8>,
)
    requires
        name == "k10temp"@ || name == "coretemp"@ && forall|other: Seq<u8>|
            !is_monitor(w, other, "k10temp"@),
        is_first_monitor(w, entry, name),
        (w.listing)(monitor_dir(entry)) == Some(names),
        is_first_mark(monitor_dir(entry), names, file, w),
    ensures
        SearchView::start().run(w) == SearchView::Done(
            Some(monitor_dir(entry) + seq![0x2f] + input_of_label(file)),
        ),
{
    let dir = monitor_dir(entry);
    law_finds_cpu_sensor(w);
    law_monitor_preference(w);
    crate::hwmon::law_first_monitor(w, "k10temp"@);
    crate::hwmon::law_first_monitor(w, name);
    let first = choose|e: Seq<u8>| #[trigger]
        is_first_monitor(w, e, name) && first_named(hwmon_dirs_in(w), name) == Some(monitor_dir(e));
    assert(is_monitor(w, entry, name));
    assert(first_named(hwmon_dirs_in(w), name) is Some);
    assert(name_le(first, entry));
    assert(name_le(entry, first));
    crate::names::lemma_name_le_antisymmetric(first, entry);
    if name != "k10temp"@ {
        if first_named(hwmon_dirs_in(w), "k10temp"@) is Some {
            let e = choose|e: Seq<u8>| #[trigger] is_first_monitor(w, e, "k10temp"@);
            assert(is_monitor(w, e, "k10temp"@));
        }
    }
    law_first_mark(dir, names, w);
    assert(marks_cpu(dir, names, file, w));
    let least = choose|f: Seq<u8>| #[trigger]
        is_first_mark(dir, names, f, w) && labelled_input(
            dir,
            temp_files(Some(names), "_label"@),
            w,
        ) == Some(dir + seq![0x2f] + input_of_label(f));
    assert(marks_cpu(dir, names, least, w));
    assert(name_le(least, file));
    assert(name_le(file, least));
    crate::names::lemma_name_le_antisymmetric(least, file);
}

/// The first temperature file is taken from the listing that is given when it is asked
/// for, whatever was listed before. Only where that has none does the search go on to
/// the monitors with other names.
pub proof fn law_inputs_by_reply(place: PlaceView, names: Seq<Seq<u8>>)
    ensures
        match SearchView::Inputs(place).step(ReplyView::Listing(Some(names))) {
            SearchView::Done(Some(path)) => exists|name: Seq<u8>| #[trigger]
                is_first_input_name(names, name) && path == place.dir + seq![0x2f] + name,
            _ => forall|name: Seq<u8>| !is_input_name(names, name),
        },
        SearchView::Inputs(place).step(ReplyView::Listing(None)) == look_from(
            place.mons,
            place.wanted + 1,
        ),
{
    crate::hwmon::law_first_input_exact(place.dir, names);
    lemma_look_finds_nothing(place.mons, place.wanted + 1);
}

proof fn lemma_look_finds_nothing(mons: Seq<(Seq<char>, Seq<u8>)>, k: nat)
    ensures
        !(look_from(mons, k) matches SearchView::Done(Some(path))),
    decreases CPU_HWMON_COUNT - k,
{
    if k < CPU_HWMON_COUNT {
        lemma_look_finds_nothing(mons, k + 1);
    }
}

/// The view of a search that has ended holds what it has ended with.
pub proof fn law_contents_of_search_end(path: Vec<u8>, search: CpuSearch)
    ensures
        CpuSearch::Done(Some(path))@ == SearchView::Done(Some(path@)),
        CpuSearch::Done(None)@ == SearchView::Done(None),
        search is Done <==> search@ is Done,
{
}

/// A run of the search asks what the search asks, goes on by the world's answer, and
/// ends when there is nothing to ask: when the search has ended.
pub proof fn law_search_run_follows_steps(s: SearchView, w: World)
    requires
        s.valid(),
    ensures
        match s.request() {
            Some(request) => s.run(w) == s.step(w.answer(request)).run(w),
            None => s.run(w) == s && s is Done,
        },
{
    if s.request() is Some {
        law_search_step(s, w);
    }
}

} // verus!
