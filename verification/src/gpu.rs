//! What a compute device is asked to do, as plain values: the layout of each
//! kernel's bindings, the commands in the order they are encoded, and the bytes
//! that go in and come back. Whoever holds the device carries it out.
use vstd::prelude::*;
use crate::num::ceil_div;
use crate::scan::Level;
use crate::sim_gpu::Pass;
use crate::spray_gpu::SprayPass;
use crate::surface_gpu::SurfacePass;

verus! {

/// Invocations in a workgroup.
pub const WORKGROUP: u32 = 256;

/// The most workgroups along one dimension of a dispatch.
pub const MAX_GROUPS: u32 = 65535;

/// Formats a kernel can write a volume in.
#[derive(Clone, Copy, PartialEq, Eq, Structural, Debug)]
pub enum VolumeFormat {
    Rgba8Unorm,
}

/// What a compute pass binds at one slot.
#[derive(Clone, Copy, PartialEq, Eq, Structural, Debug)]
pub enum Binding {
    /// A uniform of this many bytes, optionally addressed by dynamic offset.
    Uniform { size: u64, dynamic: bool },
    /// A read-write storage buffer.
    Storage,
    /// A write-only 3D storage texture.
    VolumeOut(VolumeFormat),
}

/// One entry of a bind group layout, visible to compute.
#[derive(Clone, Copy, PartialEq, Eq, Structural, Debug)]
pub enum LayoutEntry {
    Uniform { binding: u32, dynamic: bool, min_size: Option<u64> },
    Storage { binding: u32, read_only: bool },
    VolumeOut { binding: u32, format: VolumeFormat },
}

/// The layout entry for `kind` bound at `binding`. A uniform of no bytes sets no
/// least size.
pub open spec fn layout_entry(binding: u32, kind: Binding) -> LayoutEntry {
    match kind {
        Binding::Uniform { size, dynamic } => LayoutEntry::Uniform {
            binding,
            dynamic,
            min_size: if size == 0 {
                None
            } else {
                Some(size)
            },
        },
        Binding::Storage => LayoutEntry::Storage { binding, read_only: false },
        Binding::VolumeOut(format) => LayoutEntry::VolumeOut { binding, format },
    }
}

/// The layout of a kernel with these bindings.
pub fn layout(bindings: &Vec<(u32, Binding)>) -> (entries: Vec<LayoutEntry>)
    ensures
        entries@.len() == bindings@.len(),
        forall|k: int|
            0 <= k < entries@.len() ==> #[trigger] entries@[k] == layout_entry(
                bindings@[k].0,
                bindings@[k].1,
            ),
        forall|k: int|
            0 <= k < entries@.len() ==> match bindings@[k].1 {
                Binding::Uniform { size, dynamic } => #[trigger] entries@[k]
                    == (LayoutEntry::Uniform {
                    binding: bindings@[k].0,
                    dynamic,
                    min_size: if size == 0 {
                        None
                    } else {
                        Some(size)
                    },
                }),
                Binding::Storage => entries@[k] == (LayoutEntry::Storage {
                    binding: bindings@[k].0,
                    read_only: false,
                }),
                Binding::VolumeOut(format) => entries@[k] == (LayoutEntry::VolumeOut {
                    binding: bindings@[k].0,
                    format,
                }),
            },
{
    let mut entries: Vec<LayoutEntry> = Vec::new();
    let mut k: usize = 0;
    while k < bindings.len()
        invariant
            k <= bindings@.len(),
            entries@.len() == k,
            forall|m: int|
                0 <= m < k ==> #[trigger] entries@[m] == layout_entry(
                    bindings@[m].0,
                    bindings@[m].1,
                ),
        decreases bindings@.len() - k,
    {
        let (binding, kind) = bindings[k];
        entries.push(
            match kind {
                Binding::Uniform { size, dynamic } => LayoutEntry::Uniform {
                    binding,
                    dynamic,
                    min_size: if size == 0 {
                        None
                    } else {
                        Some(size)
                    },
                },
                Binding::Storage => LayoutEntry::Storage { binding, read_only: false },
                Binding::VolumeOut(format) => LayoutEntry::VolumeOut { binding, format },
            },
        );
        k += 1;
    }
    entries
}

/// Which dense grid a buffer belongs to.
#[derive(Clone, Copy, PartialEq, Eq, Structural, Debug)]
pub enum GridOf {
    Solver,
    Surface,
}

/// Which compaction a buffer belongs to.
#[derive(Clone, Copy, PartialEq, Eq, Structural, Debug)]
pub enum ScanOf {
    Surface,
    Spray,
}

/// A resource on the device.
#[derive(Clone, Copy, PartialEq, Eq, Structural, Debug)]
pub enum Buffer {
    Params,
    Positions,
    Previous,
    Velocities,
    Predicted,
    Lambdas,
    Deltas,
    Boundary,
    Scratch,
    Foam,
    Spray,
    Neighbors,
    NeighborCount,
    MaxNeighbors,
    Stats,
    Top,
    Ids,
    Gathered,
    ReduceLevels,
    /// Where one reduction result, or the largest neighbourhood, is read back.
    Probe,
    /// Where the particles are read back.
    Readback,
    GridParams(GridOf),
    CellsOf(GridOf),
    Starts(GridOf),
    Cursor(GridOf),
    Sorted(GridOf),
    GridLevels(GridOf),
    SurfaceParams,
    Interp,
    Samples,
    SampleFoam,
    /// The volume the water shader samples.
    Density,
    SprayParams,
    Offsets(ScanOf),
    ScanLevels(ScanOf),
    Vertices(ScanOf),
    Drawn(ScanOf),
    Total(ScanOf),
}

/// A compute entry point.
#[derive(Clone, Copy, PartialEq, Eq, Structural, Debug)]
pub enum Kernel {
    Solver(Pass),
    Surface(SurfacePass),
    Spray(SprayPass),
}

/// A bind group.
#[derive(Clone, Copy, PartialEq, Eq, Structural, Debug)]
pub enum Group {
    /// A solver pass over the solver's own buffers.
    Solver(Pass),
    /// A pass of a grid's rebuild.
    Grid(GridOf, Pass),
    /// The renumbering of one of the particle buffers.
    Gather(Buffer),
    /// The prefix sum over a compaction's offsets.
    Scan(ScanOf),
    Surface(SurfacePass),
    Spray(SprayPass),
}

/// The time a substep or a whole frame takes, or none.
#[derive(Clone, Copy, PartialEq, Eq, Structural, Debug)]
pub enum Span {
    Substep,
    Frame,
    Instant,
}

/// What the solver's parameters carry besides the scene.
#[derive(Clone, Copy, PartialEq, Eq, Structural, Debug)]
pub enum Extra {
    Nothing,
    /// The queued impulse of this number.
    Impulse(usize),
    /// The ray under the mouse.
    Ray,
}

/// One thing to do. Commands between submissions are encoded together.
#[derive(Clone, Copy, PartialEq, Eq, Structural, Debug)]
pub enum Command {
    /// Make every buffer that the particle count sizes, and bind them.
    Allocate,
    /// Make the neighbour lists anew for the current capacity, and bind again.
    AllocateNeighbors,
    /// Write a buffer's contents.
    Write(Buffer),
    /// Write the solver's parameters.
    WriteParams(Span, Extra),
    /// Move the clock on by a substep.
    AdvanceClock,
    BeginPass,
    EndPass,
    Pipeline(Kernel),
    /// Bind a group, at a dynamic offset if the kernel has one.
    Bind(Group, Option<u32>),
    Dispatch(u32, u32),
    /// Zero a buffer.
    Clear(Buffer),
    /// Copy this many bytes, from an offset into one buffer to an offset into
    /// another; or the whole of a buffer.
    Copy { from: Buffer, at: u64, to: Buffer, to_at: u64, bytes: Option<u64> },
    /// Submit what has been encoded since the last submission.
    Submit,
}

/// Workgroups for `count` invocations.
pub open spec fn workgroups(count: int) -> int {
    ceil_div(count, WORKGROUP as int)
}

/// Enough workgroups for `count` invocations, spilling into a second dimension
/// past the per-dimension limit; nothing at all for none.
pub open spec fn dispatched(count: u32) -> Seq<Command> {
    let groups = workgroups(count as int);
    if groups == 0 {
        Seq::empty()
    } else {
        seq![
            Command::Dispatch(
                (if groups <= MAX_GROUPS {
                    groups
                } else {
                    MAX_GROUPS as int
                }) as u32,
                ceil_div(groups, MAX_GROUPS as int) as u32,
            ),
        ]
    }
}

/// Dispatches enough workgroups for `count` invocations. Shaders fold the two
/// dimensions back into one.
pub fn dispatch(program: &mut Vec<Command>, count: u32)
    ensures
        final(program)@ == old(program)@ + dispatched(count),
{
    let groups: u32 = crate::num::div_ceil(count, WORKGROUP);
    if groups > 0 {
        let x: u32 = if groups < MAX_GROUPS {
            groups
        } else {
            MAX_GROUPS
        };
        program.push(Command::Dispatch(x, crate::num::div_ceil(groups, MAX_GROUPS)));
        assert(program@ =~= old(program)@ + dispatched(count));
    } else {
        assert(program@ =~= old(program)@ + dispatched(count));
    }
}

/// A dispatch has an invocation for each item, and keeps within the limit both
/// ways; with nothing to do, nothing is dispatched.
pub proof fn lemma_dispatch_covers(count: u32)
    ensures
        count == 0 ==> dispatched(count).len() == 0,
        count > 0 ==> {
            &&& dispatched(count).len() == 1
            &&& dispatched(count)[0] matches Command::Dispatch(x, y)
            &&& 1 <= x <= MAX_GROUPS
            &&& 1 <= y <= MAX_GROUPS
            &&& WORKGROUP * (x * y) >= count
            &&& y > 1 ==> x == 65535
            &&& 256 * ((x * y) - 1) < count || y > 1
            &&& 256 * (65535 * (y - 1)) < count
        },
{
    let groups = workgroups(count as int);
    crate::num::lemma_ceil_div(count as int, WORKGROUP as int);
    crate::num::lemma_ceil_div(groups, MAX_GROUPS as int);
    if count > 0 {
        let x = if groups <= MAX_GROUPS {
            groups
        } else {
            MAX_GROUPS as int
        };
        let y = ceil_div(groups, MAX_GROUPS as int);
        assert(1 <= groups <= 0x100_0000);
        assert(1 <= y <= 257);
        assert(256 * (groups - 1) < count);
        assert(y > 1 ==> groups > MAX_GROUPS) by (nonlinear_arith)
            requires
                (y - 1) * MAX_GROUPS < groups,
        ;
        assert(groups <= MAX_GROUPS ==> y == 1) by (nonlinear_arith)
            requires
                (y - 1) * MAX_GROUPS < groups,
                1 <= y,
        ;
        if y == 1 {
            assert(x * y == x) by (nonlinear_arith)
                requires
                    y == 1,
            ;
            assert(groups <= y * MAX_GROUPS);
        }
        assert(x * y >= groups) by (nonlinear_arith)
            requires
                groups <= MAX_GROUPS && x == groups && y >= 1 || x == MAX_GROUPS && groups <= y
                    * MAX_GROUPS,
                groups >= 1,
        ;
    }
}

/// One kernel over `count` items, with its pipeline and group set first.
pub open spec fn ran(kernel: Kernel, group: Group, count: u32) -> Seq<Command> {
    seq![Command::Pipeline(kernel), Command::Bind(group, None)] + dispatched(count)
}

/// Runs one kernel over `count` items.
pub fn run(program: &mut Vec<Command>, kernel: Kernel, group: Group, count: u32)
    ensures
        final(program)@ == old(program)@ + ran(kernel, group, count),
{
    program.push(Command::Pipeline(kernel));
    program.push(Command::Bind(group, None));
    dispatch(program, count);
    assert(program@ =~= old(program)@ + ran(kernel, group, count));
}

/// Offset and pair count of each level of a sweep, in the order they run.
pub type Runs = Seq<(u32, u32)>;

/// The levels of `runs` in turn, each bound at its own offset.
pub open spec fn swept(group: Group, runs: Runs) -> Seq<Command>
    decreases runs.len(),
{
    if runs.len() == 0 {
        Seq::empty()
    } else {
        swept(group, runs.drop_last()) + seq![Command::Bind(group, Some(runs.last().0))]
            + dispatched(runs.last().1)
    }
}

/// A kernel run once for each level of a sweep.
pub open spec fn ran_levels(kernel: Kernel, group: Group, runs: Runs) -> Seq<Command> {
    seq![Command::Pipeline(kernel)] + swept(group, runs)
}

/// Runs a kernel once for each level of a sweep.
pub fn run_levels(
    program: &mut Vec<Command>,
    kernel: Kernel,
    group: Group,
    runs: &Vec<(u32, u32)>,
)
    ensures
        final(program)@ == old(program)@ + ran_levels(kernel, group, runs@),
{
    program.push(Command::Pipeline(kernel));
    assert(program@ =~= old(program)@ + (seq![Command::Pipeline(kernel)] + swept(
        group,
        runs@.take(0),
    )));
    let mut k: usize = 0;
    while k < runs.len()
        invariant
            k <= runs@.len(),
            program@ == old(program)@ + (seq![Command::Pipeline(kernel)] + swept(
                group,
                runs@.take(k as int),
            )),
        decreases runs@.len() - k,
    {
        let (offset, count) = runs[k];
        program.push(Command::Bind(group, Some(offset)));
        dispatch(program, count);
        proof {
            let next = runs@.take(k + 1);
            assert(next.drop_last() =~= runs@.take(k as int));
            assert(program@ =~= old(program)@ + (seq![Command::Pipeline(kernel)] + swept(
                group,
                next,
            )));
        }
        k += 1;
    }
    assert(runs@.take(runs@.len() as int) =~= runs@);
}

/// Walks a program, keeping track of whether a pass is open: dispatches and
/// their bindings only go inside one, and everything else outside. `None` once
/// a command is out of place.
pub open spec fn walk(program: Seq<Command>, open: bool) -> Option<bool>
    decreases program.len(),
{
    if program.len() == 0 {
        Some(open)
    } else {
        match walk(program.drop_last(), open) {
            None => None,
            Some(open) => match program.last() {
                Command::BeginPass => if open {
                    None
                } else {
                    Some(true)
                },
                Command::EndPass => if open {
                    Some(false)
                } else {
                    None
                },
                Command::Pipeline(_) | Command::Bind(_, _) | Command::Dispatch(_, _) => if open {
                    Some(true)
                } else {
                    None
                },
                _ => if open {
                    None
                } else {
                    Some(false)
                },
            },
        }
    }
}

/// Programs that fit together walk on from one another.
pub proof fn lemma_walk_joins(a: Seq<Command>, b: Seq<Command>, open: bool)
    requires
        walk(a, open) is Some,
    ensures
        walk(a + b, open) == walk(b, walk(a, open)->0),
    decreases b.len(),
{
    if b.len() == 0 {
        assert(a + b =~= a);
    } else {
        lemma_walk_joins(a, b.drop_last(), open);
        assert((a + b).drop_last() =~= a + b.drop_last());
        assert((a + b).last() == b.last());
    }
}

pub proof fn lemma_walk_one(command: Command, open: bool)
    ensures
        walk(seq![command], open) == walk(Seq::<Command>::empty().push(command), open),
        command == Command::BeginPass && !open ==> walk(seq![command], open) == Some(true),
        command == Command::EndPass && open ==> walk(seq![command], open) == Some(false),
        (command is Pipeline || command is Bind || command is Dispatch) && open ==> walk(
            seq![command],
            open,
        ) == Some(true),
        !(command is Pipeline || command is Bind || command is Dispatch || command is BeginPass
            || command is EndPass) && !open ==> walk(seq![command], open) == Some(false),
{
    let s = seq![command];
    assert(s.drop_last() =~= Seq::empty());
    assert(s =~= Seq::<Command>::empty().push(command));
    assert(walk(s.drop_last(), open) == Some(open));
}

pub proof fn lemma_walk_dispatched(count: u32)
    ensures
        walk(dispatched(count), true) == Some(true),
{
    if workgroups(count as int) != 0 {
        lemma_walk_one(dispatched(count)[0], true);
        assert(dispatched(count) =~= seq![dispatched(count)[0]]);
    }
}

/// Running a kernel only needs an open pass.
pub proof fn lemma_walk_ran(kernel: Kernel, group: Group, count: u32)
    ensures
        walk(ran(kernel, group, count), true) == Some(true),
{
    let (a, b) = (Command::Pipeline(kernel), Command::Bind(group, None));
    lemma_walk_one(a, true);
    lemma_walk_one(b, true);
    lemma_walk_joins(seq![a], seq![b], true);
    assert(seq![a] + seq![b] =~= seq![a, b]);
    lemma_walk_dispatched(count);
    lemma_walk_joins(seq![a, b], dispatched(count), true);
}

/// Running a sweep only needs an open pass.
pub proof fn lemma_walk_ran_levels(kernel: Kernel, group: Group, runs: Runs)
    ensures
        walk(ran_levels(kernel, group, runs), true) == Some(true),
{
    lemma_walk_one(Command::Pipeline(kernel), true);
    lemma_walk_swept(group, runs);
    lemma_walk_joins(seq![Command::Pipeline(kernel)], swept(group, runs), true);
}

proof fn lemma_walk_swept(group: Group, runs: Runs)
    ensures
        walk(swept(group, runs), true) == Some(true),
    decreases runs.len(),
{
    if runs.len() > 0 {
        let rest = swept(group, runs.drop_last());
        let bound = Command::Bind(group, Some(runs.last().0));
        lemma_walk_swept(group, runs.drop_last());
        lemma_walk_one(bound, true);
        lemma_walk_joins(rest, seq![bound], true);
        lemma_walk_dispatched(runs.last().1);
        lemma_walk_joins(rest + seq![bound], dispatched(runs.last().1), true);
    }
}

/// The word four bytes stand for, least significant byte first.
pub open spec fn little(bytes: Seq<u8>, at: int) -> int {
    bytes[at] + 0x100 * bytes[at + 1] + 0x1_0000 * bytes[at + 2] + 0x100_0000 * bytes[at + 3]
}

/// The word four bytes stand for, most significant byte first.
pub open spec fn big(bytes: Seq<u8>, at: int) -> int {
    bytes[at + 3] + 0x100 * bytes[at + 2] + 0x1_0000 * bytes[at + 1] + 0x100_0000 * bytes[at]
}

/// The bytes are those of the words, in the order that is asked for.
pub open spec fn ordered(bytes: Seq<u8>, words: Seq<u32>, least_first: bool) -> bool {
    &&& bytes.len() == 4 * words.len()
    &&& forall|k: int|
        0 <= k < words.len() ==> #[trigger] words[k] == (if least_first {
            little(bytes, 4 * k)
        } else {
            big(bytes, 4 * k)
        })
}

/// The bytes are those of the words, in the one order or the other: which one is
/// the machine's.
pub open spec fn spells(bytes: Seq<u8>, words: Seq<u32>) -> bool {
    ordered(bytes, words, true) || ordered(bytes, words, false)
}

/// Words that were written come back when they are read in the same order.
pub proof fn lemma_words_come_back(
    bytes: Seq<u8>,
    written: Seq<u32>,
    read: Seq<u32>,
    least_first: bool,
)
    requires
        ordered(bytes, written, least_first),
        ordered(bytes, read, least_first),
    ensures
        read == written,
{
    assert forall|k: int| 0 <= k < written.len() implies read[k] == #[trigger] written[k] by {}
    assert(read =~= written);
}

/// The bytes, with zeros after them up to a whole word.
pub open spec fn padded(bytes: Seq<u8>) -> Seq<u8> {
    Seq::new(
        (4 * ceil_div(bytes.len() as int, 4)) as nat,
        |i: int|
            if i < bytes.len() {
                bytes[i]
            } else {
                0u8
            },
    )
}

/// Padding keeps the bytes and adds fewer than four zeros.
pub proof fn lemma_padded(bytes: Seq<u8>, i: int)
    ensures
        bytes.len() <= padded(bytes).len() < bytes.len() + 4,
        padded(bytes).len() % 4 == 0,
        0 <= i < bytes.len() ==> padded(bytes)[i] == bytes[i],
        bytes.len() <= i < padded(bytes).len() ==> padded(bytes)[i] == 0,
{
    crate::num::lemma_ceil_div(bytes.len() as int, 4);
}

/// Why bytes could not be read in place.
#[verifier::external_type_specification]
#[verifier::external_body]
pub struct ExPodCastError(bytemuck::PodCastError);

/// `bytemuck::try_cast_slice` from bytes to words. Where it succeeds, the words
/// lie on exactly the bytes given, in the machine's byte order; bytes that are
/// not whole words are refused. Whether it succeeds otherwise rests on where the
/// bytes lie in memory, and which order the machine has rests on the machine, so
/// nothing is said of either.
#[verifier::external_body]
fn words_in_place(bytes: &[u8]) -> (words: Result<&[u32], bytemuck::PodCastError>)
    ensures
        words is Ok ==> spells(bytes@, words->Ok_0@),
        bytes@.len() % 4 != 0 ==> words is Err,
{
    bytemuck::try_cast_slice(bytes)
}

/// `bytemuck::pod_collect_to_vec` from bytes to words: as many words as hold the
/// bytes, copied in the machine's byte order, over zeros. Which order that is, is
/// not said.
#[verifier::external_body]
fn words_copied(bytes: &[u8]) -> (words: Vec<u32>)
    ensures
        spells(padded(bytes@), words@),
{
    bytemuck::pod_collect_to_vec(bytes)
}

/// `bytemuck::cast_slice` from words to bytes, which cannot fail: the bytes of
/// the words, in the machine's byte order. Which order that is, is not said.
#[verifier::external_body]
fn bytes_in_place(words: &[u32]) -> (bytes: &[u8])
    ensures
        spells(bytes@, words@),
{
    bytemuck::cast_slice(words)
}

/// Reads mapped bytes as words, the last one filled up with zeros.
pub fn cast(bytes: &[u8]) -> (words: Vec<u32>)
    ensures
        words@.len() == ceil_div(bytes@.len() as int, 4),
        spells(padded(bytes@), words@),
{
    match words_in_place(bytes) {
        Ok(words) => {
            proof {
                assert(padded(bytes@) =~= bytes@);
            }
            vstd::slice::slice_to_vec(words)
        },
        Err(_) => words_copied(bytes),
    }
}

/// The bytes of some words, as the device reads them.
pub fn bytes_of(words: &Vec<u32>) -> (bytes: Vec<u8>)
    ensures
        spells(bytes@, words@),
{
    vstd::slice::slice_to_vec(bytes_in_place(words.as_slice()))
}

/// A table of sweep levels in one uniform buffer, addressed by dynamic offset.
pub struct Levels {
    pub bytes: Vec<u8>,
    /// Offset and pair count of each level, in the order they run.
    pub runs: Vec<(u32, u32)>,
}

/// The words a level is made of.
pub open spec fn level_words(level: Level) -> Seq<u32> {
    seq![level.stride, level.count, level.top, level.down]
}

/// The table and its runs spell out `levels`: level `k` takes its bytes at `k`
/// times the alignment, with zeros after it.
pub open spec fn tabulates(table: Levels, levels: Seq<Level>, align: int) -> bool {
    &&& table.bytes@.len() == levels.len() * align
    &&& table.runs@.len() == levels.len()
    &&& forall|k: int|
        #![trigger table.runs@[k]]
        0 <= k < levels.len() ==> {
            &&& table.runs@[k] == ((k * align) as u32, levels[k].count)
            &&& k * align <= u32::MAX
            &&& spells(
                table.bytes@.subrange(k * align, k * align + 16),
                level_words(levels[k]),
            )
            &&& forall|i: int|
                k * align + 16 <= i < (k + 1) * align ==> #[trigger] table.bytes@[i] == 0
        }
}

/// Lays out the levels of a sweep for dynamic offsets that are multiples of
/// `align`.
#[verifier::rlimit(40)]
pub fn tabulate(levels: &Vec<Level>, align: u32) -> (table: Levels)
    requires
        align >= 16,
        levels@.len() * align <= u32::MAX,
    ensures
        tabulates(table, levels@, align as int),
        table.runs@.len() == levels@.len(),
        table.bytes@.len() == levels@.len() * align,
        forall|k: int|
            #![trigger table.runs@[k]]
            0 <= k < levels@.len() ==> {
                &&& table.runs@[k].0 == k * align
                &&& table.runs@[k].1 == levels@[k].count
                &&& spells(
                    table.bytes@.subrange(k * align, k * align + 16),
                    seq![levels@[k].stride, levels@[k].count, levels@[k].top, levels@[k].down],
                )
            },
{
    let mut bytes: Vec<u8> = Vec::new();
    let mut runs: Vec<(u32, u32)> = Vec::new();
    let mut k: usize = 0;
    while k < levels.len()
        invariant
            k <= levels@.len(),
            align >= 16,
            levels@.len() * align <= u32::MAX,
            tabulates(Levels { bytes, runs }, levels@.take(k as int), align as int),
        decreases levels@.len() - k,
    {
        let ghost earlier = Levels { bytes, runs };
        let level: Level = levels[k];
        proof {
            assert(k * align + align <= levels@.len() * align) by (nonlinear_arith)
                requires
                    k + 1 <= levels@.len(),
                    align > 0,
            ;
            assert((k + 1) * align == k * align + align) by (nonlinear_arith);
        }
        let offset: usize = bytes.len();
        runs.push((offset as u32, level.count));
        let words: Vec<u32> = vec![level.stride, level.count, level.top, level.down];
        let mut own: Vec<u8> = bytes_of(&words);
        let ghost written = own@;
        proof {
            assert(words@ =~= level_words(level));
        }
        bytes.append(&mut own);
        let end: usize = offset + align as usize;
        while bytes.len() < end
            invariant
                offset == earlier.bytes@.len(),
                end == offset + align,
                align >= 16,
                written.len() == 16,
                offset + 16 <= bytes@.len() <= end,
                forall|i: int| 0 <= i < offset ==> bytes@[i] == earlier.bytes@[i],
                forall|i: int| 0 <= i < 16 ==> bytes@[offset + i] == written[i],
                forall|i: int| offset + 16 <= i < bytes@.len() ==> #[trigger] bytes@[i] == 0,
            decreases end - bytes@.len(),
        {
            bytes.push(0);
        }
        proof {
            let before = levels@.take(k as int);
            let now = levels@.take(k + 1);
            let table = Levels { bytes, runs };
            assert forall|m: int| 0 <= m < now.len() implies {
                &&& #[trigger] table.runs@[m] == ((m * align) as u32, now[m].count)
                &&& m * align <= u32::MAX
                &&& spells(
                    table.bytes@.subrange(m * align, m * align + 16),
                    level_words(now[m]),
                )
                &&& forall|i: int|
                    m * align + 16 <= i < (m + 1) * align ==> #[trigger] table.bytes@[i] == 0
            } by {
                if m < k {
                    assert(earlier.runs@[m] == ((m * align) as u32, before[m].count));
                    assert((m + 1) * align <= k * align) by (nonlinear_arith)
                        requires
                            m + 1 <= k,
                            align > 0,
                    ;
                    assert((m + 1) * align == m * align + align) by (nonlinear_arith);
                    assert(0 <= m * align) by (nonlinear_arith)
                        requires
                            0 <= m,
                            align > 0,
                    ;
                    assert(table.bytes@.subrange(m * align, m * align + 16)
                        =~= earlier.bytes@.subrange(m * align, m * align + 16));
                    assert forall|i: int|
                        m * align + 16 <= i < (m + 1) * align implies #[trigger] table.bytes@[i]
                        == 0 by {
                        assert(earlier.bytes@[i] == 0);
                    }
                } else {
                    assert(table.bytes@.subrange(m * align, m * align + 16) =~= written);
                }
            }
            assert(tabulates(table, now, align as int));
        }
        k += 1;
    }
    proof {
        assert(levels@.take(levels@.len() as int) =~= levels@);
        let table = Levels { bytes, runs };
        assert(tabulates(table, levels@, align as int));
        assert forall|m: int| #![trigger table.runs@[m]] 0 <= m < levels@.len() implies {
            &&& table.runs@[m].0 == m * align
            &&& table.runs@[m].1 == levels@[m].count
            &&& spells(
                table.bytes@.subrange(m * align, m * align + 16),
                seq![levels@[m].stride, levels@[m].count, levels@[m].top, levels@[m].down],
            )
        } by {
            assert(0 <= m * align) by (nonlinear_arith)
                requires
                    0 <= m,
                    align > 0,
            ;
            assert(level_words(levels@[m]) =~= seq![
                levels@[m].stride,
                levels@[m].count,
                levels@[m].top,
                levels@[m].down,
            ]);
        }
    }
    Levels { bytes, runs }
}

} // verus!
