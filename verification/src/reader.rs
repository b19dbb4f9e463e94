//! The loop that reads sensors: the CPU sensor is searched once, then both
//! temperatures are read, at once and again after every wait.

use crate::gpu::{gpu_temp_in, GpuRead, GpuView};
use crate::io::{advances, Reply, ReplyView, Request, RequestView, World};
use crate::names::copy_of;
use crate::search::{cpu_sensor_in, find_cpu_sensor, CpuSearch, SearchView};
use crate::temps::{read_cpu_temp, refresh_temps, refreshed, sensor_temp, Temps};
use vstd::prelude::*;

verus! {

/// Milliseconds between two readings of the sensors.
pub const TEMP_READ_INTERVAL_MS: u64 = 1000;

/// What the loop is at.
pub enum Phase {
    /// The CPU sensor is being searched.
    Find(CpuSearch),
    /// The CPU sensor is to be read.
    Cpu,
    /// The GPU temperature is being read.
    Gpu(GpuRead),
    /// The next reading is to be waited for.
    Wait,
}

/// The state of the loop.
pub struct Reader {
    /// The temperatures that were read last.
    temps: Temps,
    /// The path of the CPU sensor's file, if one was found.
    sensor: Option<Vec<u8>>,
    /// What the loop is at.
    phase: Phase,
}

/// What the loop is at, as values.
pub ghost enum PhaseView {
    /// The CPU sensor is being searched.
    Find(SearchView),
    /// The CPU sensor is to be read.
    Cpu,
    /// The GPU temperature is being read.
    Gpu(GpuView),
    /// The next reading is to be waited for.
    Wait,
}

/// The state of the loop, as values.
pub ghost struct ReaderView {
    /// The temperatures that were read last.
    pub temps: Temps,
    /// The path of the CPU sensor's file, if one was found.
    pub sensor: Option<Seq<u8>>,
    /// What the loop is at.
    pub phase: PhaseView,
}

impl View for Reader {
    type V = ReaderView;

    closed spec fn view(&self) -> ReaderView {
        ReaderView {
            temps: self.temps,
            sensor: match self.sensor {
                Some(path) => Some(path@),
                None => None,
            },
            phase: match self.phase {
                Phase::Find(search) => PhaseView::Find(search@),
                Phase::Cpu => PhaseView::Cpu,
                Phase::Gpu(gpu) => PhaseView::Gpu(gpu@),
                Phase::Wait => PhaseView::Wait,
            },
        }
    }
}

/// The CPU temperature by the sensor file `sensor`.
pub open spec fn cpu_temp_in(sensor: Option<Seq<u8>>, w: World) -> Option<u8> {
    match sensor {
        Some(path) => sensor_temp((w.text)(path)),
        None => None,
    }
}

/// The loop at the start of a reading.
pub open spec fn reading(temps: Temps, sensor: Option<Seq<u8>>) -> ReaderView {
    ReaderView {
        temps,
        sensor,
        phase: if sensor is Some {
            PhaseView::Cpu
        } else {
            PhaseView::Gpu(GpuView::Nvidia)
        },
    }
}

impl ReaderView {
    /// Nothing has been read yet.
    pub open spec fn start() -> Self {
        ReaderView {
            temps: Temps { cpu_c: 0, gpu_c: 0 },
            sensor: None,
            phase: PhaseView::Find(SearchView::start()),
        }
    }

    /// Whether this is a state that the loop can be in.
    pub open spec fn valid(self) -> bool {
        match self.phase {
            PhaseView::Find(search) => search.valid() && search.request() is Some,
            PhaseView::Cpu => self.sensor is Some,
            PhaseView::Gpu(gpu) => gpu.valid() && gpu.request() is Some,
            PhaseView::Wait => true,
        }
    }

    /// What to do next.
    pub open spec fn request(self) -> RequestView {
        match self.phase {
            PhaseView::Find(search) => search.request()->0,
            PhaseView::Cpu => RequestView::ReadFile(self.sensor->0),
            PhaseView::Gpu(gpu) => gpu.request()->0,
            PhaseView::Wait => RequestView::Sleep(TEMP_READ_INTERVAL_MS),
        }
    }

    /// The loop after a reply.
    pub open spec fn step(self, reply: ReplyView) -> Self {
        match self.phase {
            PhaseView::Find(search) => match search.step(reply) {
                SearchView::Done(sensor) => reading(self.temps, sensor),
                next => ReaderView { phase: PhaseView::Find(next), ..self },
            },
            PhaseView::Cpu => ReaderView {
                temps: refreshed(self.temps, sensor_temp(reply.text()), None),
                phase: PhaseView::Gpu(GpuView::Nvidia),
                ..self
            },
            PhaseView::Gpu(gpu) => match gpu.step(reply) {
                GpuView::Done(value) => ReaderView {
                    temps: refreshed(self.temps, None, value),
                    phase: PhaseView::Wait,
                    ..self
                },
                next => ReaderView { phase: PhaseView::Gpu(next), ..self },
            },
            PhaseView::Wait => reading(self.temps, self.sensor),
        }
    }

    /// The loop at the next wait, in a world that stays as it is.
    pub open spec fn outcome(self, w: World) -> Self {
        match self.phase {
            PhaseView::Find(search) => {
                let sensor = search.outcome(w);
                ReaderView {
                    temps: refreshed(self.temps, cpu_temp_in(sensor, w), gpu_temp_in(w)),
                    sensor,
                    phase: PhaseView::Wait,
                }
            },
            PhaseView::Cpu => ReaderView {
                temps: refreshed(self.temps, cpu_temp_in(self.sensor, w), gpu_temp_in(w)),
                phase: PhaseView::Wait,
                ..self
            },
            PhaseView::Gpu(gpu) => ReaderView {
                temps: refreshed(self.temps, None, gpu.outcome(w)),
                phase: PhaseView::Wait,
                ..self
            },
            PhaseView::Wait => self,
        }
    }

    /// How many questions may be left until the next wait, in a world that
    /// stays as it is.
    pub open spec fn remaining(self, w: World) -> nat {
        match self.phase {
            PhaseView::Find(search) => search.remaining(w) + 1 + GpuView::Nvidia.remaining(w),
            PhaseView::Cpu => 1 + GpuView::Nvidia.remaining(w),
            PhaseView::Gpu(gpu) => gpu.remaining(w),
            PhaseView::Wait => 0,
        }
    }

    /// Where the loop is, counted down to 0 at a wait.
    pub open spec fn stage(self) -> nat {
        match self.phase {
            PhaseView::Find(search) => 7 + search.stage(),
            PhaseView::Cpu => 6,
            PhaseView::Gpu(gpu) => gpu.stage(),
            PhaseView::Wait => 0,
        }
    }

    /// How much there is to do in the stage that the loop is in.
    pub open spec fn work(self) -> nat {
        match self.phase {
            PhaseView::Find(search) => search.work(),
            PhaseView::Gpu(gpu) => gpu.work(),
            _ => 0,
        }
    }

    /// The loop at the next wait, after each question has been answered by `w`.
    pub open spec fn run(self, w: World) -> Self
        decreases self.remaining(w),
        when self.valid()
        via Self::run_ends
    {
        if self.phase == PhaseView::Wait {
            self
        } else {
            self.step(w.answer(self.request())).run(w)
        }
    }

    #[via_fn]
    proof fn run_ends(self, w: World) {
        if self.phase != PhaseView::Wait {
            law_reader_step(self, w);
        }
    }
}

/// Before a wait, each answer of a world brings the wait nearer, and with the
/// same temperatures.
pub proof fn law_reader_step(s: ReaderView, w: World)
    requires
        s.valid(),
        s.phase != PhaseView::Wait,
    ensures
        s.step(w.answer(s.request())).valid(),
        s.step(w.answer(s.request())).outcome(w) == s.outcome(w),
        s.step(w.answer(s.request())).remaining(w) < s.remaining(w),
{
    match s.phase {
        PhaseView::Find(search) => {
            crate::search::law_search_step(search, w);
        },
        PhaseView::Gpu(gpu) => {
            crate::gpu::law_gpu_step(gpu, w);
        },
        _ => {},
    }
}

/// Whatever is answered, the loop goes on to a later stage, or stays in its
/// stage with less to do, until it waits. So it comes to a wait even where the
/// system changes meanwhile.
pub proof fn law_reader_always_advances(s: ReaderView, reply: ReplyView)
    requires
        s.valid(),
        s.phase != PhaseView::Wait,
    ensures
        advances((s.stage(), s.work()), (s.step(reply).stage(), s.step(reply).work())),
{
    match s.phase {
        PhaseView::Find(search) => {
            crate::search::law_search_always_advances(search, reply);
        },
        PhaseView::Gpu(gpu) => {
            crate::gpu::law_gpu_always_advances(gpu, reply);
        },
        _ => {},
    }
}

/// In a world that stays as it is, the loop comes to its next wait with the
/// outcome that its state determines.
pub proof fn law_reader_run(s: ReaderView, w: World)
    requires
        s.valid(),
    ensures
        s.run(w) == s.outcome(w),
    decreases s.remaining(w),
{
    if s.phase != PhaseView::Wait {
        law_reader_step(s, w);
        law_reader_run(s.step(w.answer(s.request())), w);
    }
}

/// The first reading comes before the first wait: by then the CPU sensor of
/// the world has been found, and both temperatures are those that the world
/// tells, or zero where it tells none.
pub proof fn law_first_reading(w: World)
    ensures
        ReaderView::start().run(w) == (ReaderView {
            temps: refreshed(
                Temps { cpu_c: 0, gpu_c: 0 },
                cpu_temp_in(cpu_sensor_in(w), w),
                gpu_temp_in(w),
            ),
            sensor: cpu_sensor_in(w),
            phase: PhaseView::Wait,
        }),
{
    law_reader_run(ReaderView::start(), w);
    crate::search::law_finds_cpu_sensor(w);
    crate::search::law_search_run(SearchView::start(), w);
}

/// After every wait both temperatures are read again, by the sensor that was
/// found at the start. What the world does not tell stays as it was.
pub proof fn law_next_reading(s: ReaderView, w: World)
    requires
        s.phase == PhaseView::Wait,
    ensures
        s.request() == RequestView::Sleep(TEMP_READ_INTERVAL_MS),
        s.step(w.answer(s.request())).run(w) == (ReaderView {
            temps: refreshed(s.temps, cpu_temp_in(s.sensor, w), gpu_temp_in(w)),
            sensor: s.sensor,
            phase: PhaseView::Wait,
        }),
{
    law_reader_run(s.step(w.answer(s.request())), w);
}

/// Once the search has ended, no reply changes the sensor or starts another
/// search, however the system changes.
pub proof fn law_sensor_stays(s: ReaderView, reply: ReplyView)
    requires
        !(s.phase is Find),
    ensures
        s.step(reply).sensor == s.sensor,
        !(s.step(reply).phase is Find),
{
}

/// The loop at the start of a reading.
fn start_reading(temps: Temps, sensor: Option<Vec<u8>>) -> (r: Reader)
    ensures
        r@ == reading(
            temps,
            match sensor {
                Some(path) => Some(path@),
                None => None,
            },
        ),
        r@.valid(),
{
    if sensor.is_some() {
        Reader { temps, sensor, phase: Phase::Cpu }
    } else {
        let mut temps = temps;
        refresh_temps(&mut temps, read_cpu_temp(None), None);
        Reader { temps, sensor, phase: Phase::Gpu(GpuRead::new()) }
    }
}

impl Reader {
    /// The loop is in a state that it can be in.
    #[verifier::type_invariant]
    spec fn well_formed(self) -> bool {
        self@.valid()
    }

    /// Nothing has been read yet.
    pub fn new() -> (r: Self)
        ensures
            r@ == ReaderView::start(),
    {
        Reader { temps: Temps::new(), sensor: None, phase: Phase::Find(find_cpu_sensor()) }
    }

    /// The temperatures that were read last.
    pub fn temps(&self) -> (r: Temps)
        ensures
            r == self@.temps,
    {
        self.temps
    }

    /// What to do next.
    pub fn request(&self) -> (r: Request)
        ensures
            r@ == self@.request(),
    {
        proof {
            use_type_invariant(self);
        }
        match &self.phase {
            Phase::Find(search) => search.request().unwrap(),
            Phase::Cpu => {
                let path: &Vec<u8> = self.sensor.as_ref().unwrap();
                Request::ReadFile(copy_of(path.as_slice()))
            },
            Phase::Gpu(gpu) => gpu.request().unwrap(),
            Phase::Wait => Request::Sleep(TEMP_READ_INTERVAL_MS),
        }
    }

    /// Takes in the reply to the last request.
    pub fn step(self, reply: Reply) -> (r: Self)
        ensures
            r@ == self@.step(reply@),
            r@.valid(),
    {
        proof {
            use_type_invariant(&self);
        }
        let Reader { temps, sensor, phase } = self;
        match phase {
            Phase::Find(search) => match search.step(reply) {
                CpuSearch::Done(found) => start_reading(temps, found),
                next => Reader { temps, sensor, phase: Phase::Find(next) },
            },
            Phase::Cpu => {
                let cpu = match reply.text() {
                    Some(text) => read_cpu_temp(Some(text.as_str())),
                    None => read_cpu_temp(None),
                };
                let mut temps = temps;
                refresh_temps(&mut temps, cpu, None);
                Reader { temps, sensor, phase: Phase::Gpu(GpuRead::new()) }
            },
            Phase::Gpu(gpu) => match gpu.step(reply) {
                GpuRead::Done(value) => {
                    let mut temps = temps;
                    refresh_temps(&mut temps, None, value);
                    Reader { temps, sensor, phase: Phase::Wait }
                },
                next => Reader { temps, sensor, phase: Phase::Gpu(next) },
            },
            Phase::Wait => start_reading(temps, sensor),
        }
    }
}

/// Whether `now` is what becomes of the temperature `before` by a reading: the value
/// that was read, higher or lower, or `before` where none was read.
pub open spec fn is_after_reading(now: u8, before: u8, read: Option<u8>) -> bool {
    &&& read matches Some(v) ==> now == v
    &&& read is None ==> now == before
}

/// What the file `sensor` tells, if there is one.
pub open spec fn told_by(sensor: Option<Seq<u8>>, w: World) -> Option<u8> {
    if sensor is Some && (w.text)(sensor->0) is Some {
        sensor_temp((w.text)(sensor->0))
    } else {
        None
    }
}

/// By the first wait the search has ended, and both temperatures are those that the
/// sensor that it ended with and the reading of the GPU tell, or zero.
pub proof fn law_first_values(w: World)
    ensures
        ({
            let s = ReaderView::start().run(w);
            let sensor = SearchView::start().run(w)->Done_0;
            &&& s.phase == PhaseView::Wait
            &&& s.sensor == sensor
            &&& is_after_reading(s.temps.cpu_c, 0, told_by(sensor, w))
            &&& is_after_reading(s.temps.gpu_c, 0, GpuView::Nvidia.run(w)->Done_0)
        }),
{
    law_first_reading(w);
    crate::search::law_finds_cpu_sensor(w);
    crate::gpu::law_reads_gpu_temp(w);
}

/// Between two readings one second is waited for. Then each temperature is what the
/// same sensor and a new reading of the GPU tell, higher or lower than before, or
/// what it was where they tell nothing.
pub proof fn law_next_values(s: ReaderView, w: World)
    requires
        s.phase == PhaseView::Wait,
    ensures
        ({
            let t = s.step(ReplyView::Slept).run(w);
            &&& s.request() == RequestView::Sleep(1000)
            &&& t.phase == PhaseView::Wait
            &&& t.sensor == s.sensor
            &&& is_after_reading(t.temps.cpu_c, s.temps.cpu_c, told_by(s.sensor, w))
            &&& is_after_reading(t.temps.gpu_c, s.temps.gpu_c, GpuView::Nvidia.run(w)->Done_0)
        }),
{
    law_next_reading(s, w);
    crate::gpu::law_reads_gpu_temp(w);
}

/// A temperature changes only when its reading ends, to what was read, and then at
/// once. Nothing that is read for one of the two changes the other.
pub proof fn law_values_by_reply(s: ReaderView, reply: ReplyView)
    ensures
        ({
            let t = s.step(reply).temps;
            match s.phase {
                PhaseView::Find(search) => t == s.temps,
                PhaseView::Wait => t == s.temps,
                PhaseView::Cpu => {
                    &&& t.gpu_c == s.temps.gpu_c
                    &&& is_after_reading(t.cpu_c, s.temps.cpu_c, sensor_temp(reply.text()))
                },
                PhaseView::Gpu(gpu) => {
                    &&& t.cpu_c == s.temps.cpu_c
                    &&& is_after_reading(
                        t.gpu_c,
                        s.temps.gpu_c,
                        match gpu.step(reply) {
                            GpuView::Done(value) => value,
                            _ => None,
                        },
                    )
                },
            }
        }),
{
}

/// A reading reads the file of the sensor that was found, then the GPU; without a
/// sensor the GPU only. After the GPU comes a wait, and after a wait a new reading.
pub proof fn law_order_of_readings(s: ReaderView, reply: ReplyView)
    ensures
        s.phase is Cpu && s.sensor is Some ==> s.request() == RequestView::ReadFile(s.sensor->0),
        s.phase is Cpu ==> s.step(reply).phase == PhaseView::Gpu(GpuView::Nvidia),
        s.phase is Wait && s.sensor is Some ==> s.step(reply).phase is Cpu,
        s.phase is Wait && s.sensor is None ==> s.step(reply).phase == PhaseView::Gpu(
            GpuView::Nvidia,
        ),
        s.phase matches PhaseView::Gpu(gpu) ==> match gpu.step(reply) {
            GpuView::Done(value) => s.step(reply).phase is Wait,
            next => s.step(reply).phase == PhaseView::Gpu(next),
        },
        s.phase matches PhaseView::Find(search) ==> match search.step(reply) {
            SearchView::Done(Some(path)) => s.step(reply).phase is Cpu && s.step(reply).sensor
                == Some(path),
            SearchView::Done(None) => s.step(reply).phase == PhaseView::Gpu(GpuView::Nvidia)
                && s.step(reply).sensor is None,
            next => s.step(reply).phase == PhaseView::Find(next),
        },
{
}

/// A run of the loop asks what the loop asks and goes on by the world's answer, up to
/// the next wait.
pub proof fn law_reader_run_follows_steps(s: ReaderView, w: World)
    requires
        s.valid(),
    ensures
        s.phase is Wait ==> s.run(w) == s,
        !(s.phase is Wait) ==> s.run(w) == s.step(w.answer(s.request())).run(w),
{
    if !(s.phase is Wait) {
        law_reader_step(s, w);
    }
}

} // verus!
