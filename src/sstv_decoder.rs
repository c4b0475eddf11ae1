//! The receiver: a state machine fed with blocks of phases.
use crate::color::Rgb;
use crate::discriminator::{freqs_of, instantaneous_frequencies, last_phase};
use crate::encoder::Mode as Transmission;
use crate::header::{
    decode_vis, drop_front, header_len, leader_search, lemma_leader_search_bound,
    lemma_leader_search_resumes, round_ms_exec, take_leader, vis_len, vis_of_window,
};
use crate::layout::{height_of, layout, rows_of, width_of};
use crate::line::{decode_line, group_len, group_len_exec, groups_of, lemma_layout_bounds, line_rows, rows_view};
use crate::mode::Mode;
use std::collections::VecDeque;
use vstd::prelude::*;

verus! {

/// What the receiver holds, as values.
pub struct Snapshot {
    pub mode: Mode,
    /// Frequencies waiting to be read, in millihertz.
    pub queue: Seq<u32>,
    pub picture: Seq<Seq<Rgb>>,
    /// Rows of the picture received so far.
    pub counter: nat,
}

impl Snapshot {
    /// The snapshot with `f` appended to the queue.
    pub open spec fn fed(self, f: Seq<u32>) -> Snapshot {
        Snapshot { queue: self.queue + f, ..self }
    }
}

/// A black picture of the size of mode `t`.
pub open spec fn blank(t: Transmission) -> Seq<Seq<Rgb>> {
    Seq::new(height_of(t), |r: int| Seq::new(width_of(t), |x: int| (0u8, 0u8, 0u8)))
}

/// `pic` with `rows` written from row `at` on.
pub open spec fn put_rows(pic: Seq<Seq<Rgb>>, at: int, rows: Seq<Seq<Rgb>>) -> Seq<Seq<Rgb>> {
    Seq::new(pic.len(), |i: int| if at <= i < at + rows.len() { rows[i - at] } else { pic[i] })
}

/// While idle, the receiver looks for the first leader in the queue. It
/// passes over what comes before it and takes the leader; without a leader
/// it keeps only what may still be the start of one.
pub open spec fn leader_step(fs: nat, s: Snapshot) -> Snapshot {
    if s.mode == Mode::Idle {
        let r = leader_search(s.queue, fs);
        if r.1 {
            Snapshot { mode: Mode::VisFind, queue: s.queue.skip((r.0 + header_len(fs)) as int), ..s }
        } else {
            Snapshot { queue: s.queue.skip(r.0 as int), ..s }
        }
    } else {
        s
    }
}

/// After a leader, once a whole VIS code is queued, the receiver reads it:
/// a known mode starts a black picture of its size; anything else sends it
/// back to idle. Either way the code leaves the queue.
pub open spec fn vis_step(fs: nat, s: Snapshot) -> Snapshot {
    if s.mode == Mode::VisFind && s.queue.len() >= vis_len(fs) {
        let q = s.queue.skip(vis_len(fs) as int);
        match vis_of_window(s.queue.subrange(0, vis_len(fs) as int)) {
            Some(t) => Snapshot { mode: mode_of(t), queue: q, picture: blank(t), counter: 0 },
            None => Snapshot { mode: Mode::Idle, queue: q, ..s },
        }
    } else {
        s
    }
}

/// The receiving state of a transmission mode.
pub open spec fn mode_of(t: Transmission) -> Mode {
    choose|m: Mode| m.format() == Some(t)
}

/// The receiving state of a transmission mode names that mode.
pub proof fn lemma_mode_of(t: Transmission)
    ensures
        mode_of(t).format() == Some(t),
{
    let w = match t {
        Transmission::Scottie1 => Mode::Scottie1,
        Transmission::Scottie2 => Mode::Scottie2,
        Transmission::ScottieDx => Mode::ScottieDx,
        Transmission::Martin1 => Mode::Martin1,
        Transmission::Martin2 => Mode::Martin2,
        Transmission::Robot36 => Mode::Robot36,
        Transmission::Robot72 => Mode::Robot72,
        Transmission::WrasseSc2_180 => Mode::WrasseSc2_180,
        Transmission::P3 => Mode::P3,
        Transmission::P5 => Mode::P5,
        Transmission::P7 => Mode::P7,
        Transmission::Pd50 => Mode::Pd50,
        Transmission::Pd90 => Mode::Pd90,
        Transmission::Pd120 => Mode::Pd120,
        Transmission::Pd160 => Mode::Pd160,
        Transmission::Pd180 => Mode::Pd180,
        Transmission::Pd240 => Mode::Pd240,
        Transmission::Pd290 => Mode::Pd290,
    };
    assert(w.format() == Some(t));
}

/// While receiving, once a whole line is queued, the receiver reads it into
/// the picture. After the last line it hands the picture out and goes idle.
pub open spec fn line_step(fs: nat, s: Snapshot) -> (Snapshot, Option<Seq<Seq<Rgb>>>) {
    match s.mode.format() {
        Some(t) => {
            let k = s.counter / rows_of(t);
            if s.queue.len() >= group_len(fs, t, k) {
                let pic = put_rows(s.picture, s.counter as int, line_rows(fs, t, k, s.queue));
                let q = s.queue.skip(group_len(fs, t, k) as int);
                let c = s.counter + rows_of(t);
                if c >= height_of(t) {
                    (Snapshot { mode: Mode::Idle, queue: q, picture: Seq::empty(), counter: 0 }, Some(pic))
                } else {
                    (Snapshot { mode: s.mode, queue: q, picture: pic, counter: c }, None)
                }
            } else {
                (s, None)
            }
        },
        None => (s, None),
    }
}

/// One call's work on the queue: each step at most once, in order.
pub open spec fn step(fs: nat, s: Snapshot) -> (Snapshot, Option<Seq<Seq<Rgb>>>) {
    line_step(fs, vis_step(fs, leader_step(fs, s)))
}

/// While idle, feeding two blocks one after the other leads to the same
/// state as feeding them as one block: a leader that straddles the boundary
/// is found all the same, at the same place.
pub proof fn lemma_idle_blocks_join(fs: nat, s: Snapshot, a: Seq<u32>, b: Seq<u32>)
    requires
        s.mode == Mode::Idle,
        leader_step(fs, s.fed(a)).mode == Mode::Idle,
    ensures
        leader_step(fs, leader_step(fs, s.fed(a)).fed(b)) == leader_step(fs, s.fed(a + b)),
{
    let q1 = s.queue + a;
    lemma_leader_search_resumes(q1, b, fs);
    lemma_leader_search_bound(q1, fs);
    let k = leader_search(q1, fs).0;
    assert(s.fed(a + b).queue =~= q1 + b);
    assert(q1.skip(k as int) + b =~= (q1 + b).skip(k as int));
    let r = leader_search(q1.skip(k as int) + b, fs);
    lemma_leader_search_bound(q1.skip(k as int) + b, fs);
    if r.1 {
        assert((q1.skip(k as int) + b).skip((r.0 + header_len(fs)) as int) =~= (q1 + b).skip(
            (k + r.0 + header_len(fs)) as int,
        ));
    } else {
        assert((q1.skip(k as int) + b).skip(r.0 as int) =~= (q1 + b).skip((k + r.0) as int));
    }
}

pub open spec fn published(p: Option<Vec<Vec<Rgb>>>) -> Option<Seq<Seq<Rgb>>> {
    match p {
        Some(v) => Some(rows_view(v@)),
        None => None,
    }
}

pub struct SSTVDecoder {
    pub mode: Mode,
    pub sample_rate: u32,
    /// Frequencies waiting to be read, in millihertz.
    pub sample_queue: VecDeque<u32>,
    /// Samples in a leader: 610 ms.
    pub header_sample_num: usize,
    /// Samples in a VIS code: 300 ms.
    pub vis_sample_num: usize,
    pub picture: Vec<Vec<Rgb>>,
    /// Rows of the picture received so far.
    pub counter: usize,
    /// Last phase of the previous block.
    pub prev: Option<u32>,
}

impl SSTVDecoder {
    pub open spec fn wf(&self) -> bool {
        &&& self.sample_rate > 0
        &&& self.header_sample_num == header_len(self.sample_rate as nat)
        &&& self.vis_sample_num == vis_len(self.sample_rate as nat)
        &&& match self.mode.format() {
            Some(t) => {
                &&& self.picture@.len() == height_of(t)
                &&& forall|i: int| 0 <= i < self.picture@.len() ==> (#[trigger] self.picture@[i])@.len() == width_of(t)
                &&& self.counter < height_of(t)
                &&& self.counter as nat % rows_of(t) == 0
            },
            None => self.counter == 0,
        }
    }

    pub open spec fn snapshot(&self) -> Snapshot {
        Snapshot {
            mode: self.mode,
            queue: self.sample_queue@,
            picture: rows_view(self.picture@),
            counter: self.counter as nat,
        }
    }

    /// An idle receiver for `sample_rate` samples per second.
    pub fn new(sample_rate: u32) -> (r: Self)
        requires
            sample_rate > 0,
        ensures
            r.wf(),
            r.sample_rate == sample_rate,
            r.snapshot() == (Snapshot { mode: Mode::Idle, queue: Seq::empty(), picture: Seq::empty(), counter: 0 }),
            r.prev is None,
    {
        let r = SSTVDecoder {
            mode: Mode::Idle,
            sample_rate,
            sample_queue: VecDeque::new(),
            header_sample_num: round_ms_exec(sample_rate, 610),
            vis_sample_num: round_ms_exec(sample_rate, 300),
            picture: Vec::new(),
            counter: 0,
            prev: None,
        };
        assert(r.snapshot().queue =~= Seq::empty());
        assert(r.snapshot().picture =~= Seq::empty());
        r
    }

    /// Starts over, idle, at another sample rate.
    pub fn switch_sample(&mut self, sample_rate: u32)
        requires
            sample_rate > 0,
        ensures
            final(self).wf(),
            final(self).sample_rate == sample_rate,
            final(self).snapshot() == (Snapshot { mode: Mode::Idle, queue: Seq::empty(), picture: Seq::empty(), counter: 0 }),
            final(self).prev is None,
    {
        *self = SSTVDecoder::new(sample_rate);
    }

    /// Feeds a block of phases (2^-32 of a turn each) of the analytic signal:
    /// their frequencies join the queue, and the receiver takes each of its
    /// steps at most once. Returns the picture if this call completed one.
    ///
    /// As a call reads at most one line, blocks shorter than a line keep the
    /// receiver up with the signal.
    pub fn decode(&mut self, phases: &[u32]) -> (done: Option<Vec<Vec<Rgb>>>)
        requires
            old(self).wf(),
        ensures
            final(self).wf(),
            final(self).sample_rate == old(self).sample_rate,
            phases@.len() == 0 ==> final(self).snapshot() == old(self).snapshot() && final(self).prev
                == old(self).prev && done is None,
            phases@.len() > 0 ==> final(self).prev == last_phase(old(self).prev, phases@),
            phases@.len() > 0 ==> final(self).snapshot() == step(
                old(self).sample_rate as nat,
                old(self).snapshot().fed(freqs_of(old(self).sample_rate as nat, old(self).prev, phases@)),
            ).0,
            phases@.len() > 0 ==> published(done) == step(
                old(self).sample_rate as nat,
                old(self).snapshot().fed(freqs_of(old(self).sample_rate as nat, old(self).prev, phases@)),
            ).1,
    {
        if phases.len() == 0 {
            return None;
        }
        let fs = self.sample_rate;
        let ghost s0 = old(self).snapshot().fed(freqs_of(fs as nat, old(self).prev, phases@));
        let freqs = instantaneous_frequencies(fs, self.prev, phases);
        let mut i: usize = 0;
        while i < freqs.len()
            invariant
                i <= freqs@.len(),
                self.sample_queue@ == old(self).sample_queue@ + freqs@.subrange(0, i as int),
                self.mode == old(self).mode,
                self.sample_rate == old(self).sample_rate,
                self.header_sample_num == old(self).header_sample_num,
                self.vis_sample_num == old(self).vis_sample_num,
                self.picture == old(self).picture,
                self.counter == old(self).counter,
                self.prev == old(self).prev,
            decreases freqs@.len() - i,
        {
            self.sample_queue.push_back(freqs[i]);
            i = i + 1;
            assert(self.sample_queue@ =~= old(self).sample_queue@ + freqs@.subrange(0, i as int));
        }
        assert(freqs@.subrange(0, i as int) =~= freqs@);
        if phases.len() > 0 {
            self.prev = Some(phases[phases.len() - 1]);
        }
        assert(self.snapshot() == s0);
        self.leader_step();
        assert(self.snapshot() == leader_step(fs as nat, s0));
        self.vis_step();
        assert(self.snapshot() == vis_step(fs as nat, leader_step(fs as nat, s0)));
        self.line_step()
    }

    fn leader_step(&mut self)
        requires
            old(self).wf(),
        ensures
            final(self).wf(),
            final(self).sample_rate == old(self).sample_rate,
            final(self).prev == old(self).prev,
            final(self).snapshot() == leader_step(old(self).sample_rate as nat, old(self).snapshot()),
    {
        if self.mode == Mode::Idle {
            let found = take_leader(&mut self.sample_queue, self.sample_rate);
            if found {
                self.mode = Mode::VisFind;
            }
        }
    }

    fn vis_step(&mut self)
        requires
            old(self).wf(),
        ensures
            final(self).wf(),
            final(self).sample_rate == old(self).sample_rate,
            final(self).prev == old(self).prev,
            final(self).snapshot() == vis_step(old(self).sample_rate as nat, old(self).snapshot()),
    {
        if self.mode == Mode::VisFind && self.sample_queue.len() >= self.vis_sample_num {
            let n = self.vis_sample_num;
            let found = decode_vis(&self.sample_queue, n);
            drop_front(&mut self.sample_queue, n);
            match found {
                Some(t) => {
                    proof {
                        lemma_layout_bounds(t);
                    }
                    let m = Mode::receiving(t);
                    assert(m == mode_of(t)) by {
                        let c = mode_of(t);
                        assert(c.format() == Some(t));
                        crate::mode::lemma_format_injective(m, c);
                    }
                    self.mode = m;
                    self.picture = blank_picture(t);
                    self.counter = 0;
                    assert(rows_view(self.picture@) =~= blank(t));
                },
                None => {
                    self.mode = Mode::Idle;
                    self.counter = 0;
                },
            }
        }
    }

    fn line_step(&mut self) -> (done: Option<Vec<Vec<Rgb>>>)
        requires
            old(self).wf(),
        ensures
            final(self).wf(),
            final(self).sample_rate == old(self).sample_rate,
            final(self).prev == old(self).prev,
            final(self).snapshot() == line_step(old(self).sample_rate as nat, old(self).snapshot()).0,
            published(done) == line_step(old(self).sample_rate as nat, old(self).snapshot()).1,
    {
        let fs = self.sample_rate;
        match self.mode.transmission() {
            Some(t) => {
                proof {
                    lemma_layout_bounds(t);
                }
                let l = layout(t);
                let c = self.counter;
                let k = c / l.rows;
                assert(k < groups_of(t)) by (nonlinear_arith)
                    requires
                        k == c as nat / rows_of(t),
                        c < height_of(t),
                        height_of(t) % rows_of(t) == 0,
                        1 <= rows_of(t) <= 2,
                        groups_of(t) == height_of(t) / rows_of(t),
                ;
                let glen = group_len_exec(fs, t, k);
                if (self.sample_queue.len() as u64) < glen {
                    return None;
                }
                let ghost w = self.sample_queue@;
                let ghost old_pic = rows_view(self.picture@);
                let ghost expect = line_rows(fs as nat, t, k as nat, w);
                let mut rows = decode_line(&self.sample_queue, fs, t, k);
                if l.rows == 2 {
                    assert(c + 1 < height_of(t)) by (nonlinear_arith)
                        requires c % 2 == 0, c < height_of(t), height_of(t) % 2 == 0;
                    let r1 = rows.pop().unwrap();
                    let r0 = rows.pop().unwrap();
                    self.picture.set(c, r0);
                    self.picture.set(c + 1, r1);
                } else {
                    let r0 = rows.pop().unwrap();
                    self.picture.set(c, r0);
                }
                assert(rows_view(self.picture@) =~= put_rows(old_pic, c as int, expect));
                drop_front(&mut self.sample_queue, glen as usize);
                self.counter = c + l.rows;
                if self.counter >= l.height {
                    self.mode = Mode::Idle;
                    self.counter = 0;
                    let mut out: Vec<Vec<Rgb>> = Vec::new();
                    std::mem::swap(&mut self.picture, &mut out);
                    assert(rows_view(self.picture@) =~= Seq::empty());
                    return Some(out);
                }
                assert(self.counter as nat % rows_of(t) == 0) by (nonlinear_arith)
                    requires self.counter == c + rows_of(t), c as nat % rows_of(t) == 0, rows_of(t) >= 1;
                None
            },
            None => None,
        }
    }
}

/// A black picture of the size of mode `t`.
fn blank_picture(t: Transmission) -> (r: Vec<Vec<Rgb>>)
    ensures
        rows_view(r@) == blank(t),
        r@.len() == height_of(t),
        forall|i: int| 0 <= i < r@.len() ==> (#[trigger] r@[i])@.len() == width_of(t),
{
    let l = layout(t);
    let mut out: Vec<Vec<Rgb>> = Vec::new();
    let mut y: usize = 0;
    while y < l.height
        invariant
            y <= l.height,
            l.height == height_of(t),
            l.width == width_of(t),
            out@.len() == y,
            forall|i: int| 0 <= i < y ==> (#[trigger] out@[i])@ == Seq::new(width_of(t), |x: int| (0u8, 0u8, 0u8)),
        decreases l.height - y,
    {
        let mut row: Vec<Rgb> = Vec::new();
        let mut x: usize = 0;
        while x < l.width
            invariant
                x <= l.width,
                row@ == Seq::new(x as nat, |x: int| (0u8, 0u8, 0u8)),
            decreases l.width - x,
        {
            row.push((0, 0, 0));
            x = x + 1;
            assert(row@ =~= Seq::new(x as nat, |x: int| (0u8, 0u8, 0u8)));
        }
        out.push(row);
        y = y + 1;
    }
    assert(rows_view(out@) =~= blank(t));
    out
}

} // verus!
