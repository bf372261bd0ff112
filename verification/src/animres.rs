//! Animation resources (`.vanim`): frames, state machines and controller
//! settings, their validation, and their compilation to M6809 data tables.

use vstd::prelude::*;
use crate::text::{
    dec, hex, push_dec, push_hex, push_str, replace_char, replace_char_vec, str_eq, to_upper,
    unicode_upper,
};

verus! {

/// Root structure of a .vanim file (v1.0)
#[derive(Debug, Clone)]
pub struct VAnimAnimation {
    pub version: String,
    pub name: String,
    pub author: String,
    pub created: String,
    pub frames: Vec<VAnimFrame>,
    /// Animation states by name, in the order they were given.
    pub states: Vec<(String, VAnimState)>,
    pub controller: Option<VAnimController>,
}

/// Single animation frame
#[derive(Debug, Clone)]
pub struct VAnimFrame {
    pub id: String,
    pub vector_name: String,
    pub duration: u16,
    pub intensity: u8,
    pub offset_x: i16,
    pub offset_y: i16,
    pub mirror: u8,
}

/// Animation state in state machine
#[derive(Debug, Clone)]
pub struct VAnimState {
    pub name: String,
    pub frames: Vec<String>,
    pub loop_state: bool,
    pub transitions: Vec<VAnimTransition>,
}

/// State transition trigger
#[derive(Debug, Clone)]
pub struct VAnimTransition {
    pub trigger: String,
    pub target_state: String,
    pub condition: String,
}

/// Controller configuration for playable entities
#[derive(Debug, Clone)]
pub struct VAnimController {
    pub mirror_on_left: bool,
    pub state_left: Option<String>,
    pub state_right: Option<String>,
    pub state_idle: Option<String>,
}

/// The intensity of a frame that gives none.
pub fn default_intensity() -> (r: u8)
    ensures
        r == 127,
{
    127
}

/// Whether a state that does not say loops.
pub fn default_loop() -> (r: bool)
    ensures
        r,
{
    true
}

/// Whether a controller that does not say mirrors when moving left.
pub fn default_true() -> (r: bool)
    ensures
        r,
{
    true
}

// ---------------------------------------------------------------------------
// Validation
// ---------------------------------------------------------------------------

/// Some frame of the animation has the given id.
pub open spec fn has_frame(frames: Seq<VAnimFrame>, id: Seq<char>) -> bool {
    exists|i: int| 0 <= i < frames.len() && #[trigger] frames[i].id@ == id
}

/// An animation that can be used: version `1.0`, at least one frame, and
/// every frame a state names exists.
pub open spec fn valid_animation(a: VAnimAnimation) -> bool {
    &&& a.version@ == "1.0"@
    &&& a.frames.len() > 0
    &&& forall|s: int, k: int|
        0 <= s < a.states.len() && 0 <= k < a.states@[s].1.frames.len() ==> has_frame(
            a.frames@,
            #[trigger] a.states@[s].1.frames@[k]@,
        )
}

fn has_frame_exec(frames: &Vec<VAnimFrame>, id: &String) -> (r: bool)
    ensures
        r == has_frame(frames@, id@),
{
    let mut i: usize = 0;
    while i < frames.len()
        invariant
            i <= frames.len(),
            forall|k: int| 0 <= k < i ==> #[trigger] frames@[k].id@ != id@,
        decreases frames.len() - i,
    {
        if str_eq(&frames[i].id, id) {
            return true;
        }
        i += 1;
    }
    false
}

impl VAnimAnimation {
    /// Check a loaded animation: an unsupported version, no frames, or a
    /// state that names a missing frame is refused with its message.
    pub fn validate(&self) -> (r: Result<(), String>)
        ensures
            r is Ok <==> valid_animation(*self),
    {
        if !str_eq(&self.version, "1.0") {
            let mut m = String::new();
            push_str(&mut m, "Unsupported .vanim version: ");
            push_str(&mut m, &self.version);
            push_str(&mut m, " (expected 1.0)");
            return Err(m);
        }
        if self.frames.len() == 0 {
            return Err(crate::text::string_from("Animation must have at least one frame"));
        }
        let mut s: usize = 0;
        while s < self.states.len()
            invariant
                s <= self.states.len(),
                self.version@ == "1.0"@,
                self.frames.len() > 0,
                forall|j: int, k: int|
                    0 <= j < s && 0 <= k < self.states@[j].1.frames.len() ==> has_frame(
                        self.frames@,
                        #[trigger] self.states@[j].1.frames@[k]@,
                    ),
            decreases self.states.len() - s,
        {
            let state = &self.states[s].1;
            let mut k: usize = 0;
            while k < state.frames.len()
                invariant
                    k <= state.frames.len(),
                    s < self.states.len(),
                    state == self.states@[s as int].1,
                    forall|m: int|
                        0 <= m < k ==> has_frame(self.frames@, #[trigger] state.frames@[m]@),
                decreases state.frames.len() - k,
            {
                if !has_frame_exec(&self.frames, &state.frames[k]) {
                    assert(!has_frame(self.frames@, self.states@[s as int].1.frames@[k as int]@));
                    let mut m = String::new();
                    push_str(&mut m, "State '");
                    push_str(&mut m, &self.states[s].0);
                    push_str(&mut m, "' references non-existent frame: ");
                    push_str(&mut m, &state.frames[k]);
                    return Err(m);
                }
                k += 1;
            }
            s += 1;
        }
        Ok(())
    }
}

// ---------------------------------------------------------------------------
// Compilation to assembly
// ---------------------------------------------------------------------------

/// An assembler label from a name: upper case, spaces and hyphens as
/// underscores.
pub open spec fn label_of(s: Seq<char>) -> Seq<char> {
    replace_char(replace_char(unicode_upper(s), ' ', '_'), '-', '_')
}

/// The controller byte: bit 0 set when the controller mirrors on left.
pub open spec fn controller_byte(c: Option<VAnimController>) -> u8 {
    match c {
        Some(ctrl) => if ctrl.mirror_on_left {
            1
        } else {
            0
        },
        None => 0,
    }
}

/// The comment lines that open an animation.
pub open spec fn head_comments(a: VAnimAnimation, name: Seq<char>) -> Seq<char> {
    "; ===== ANIMATION: "@ + name + " =====\n"@ + "; Version: "@ + a.version@ + "\n"@
        + "; Frames: "@ + dec(a.frames.len() as nat) + "\n"@ + "; States: "@ + dec(
        a.states.len() as nat,
    ) + "\n"@ + "\n"@
}

/// The main table: counts, controller byte, and table pointers.
pub open spec fn head_table(a: VAnimAnimation, label: Seq<char>) -> Seq<char> {
    "_"@ + label + "_ANIM:\n"@ + "    FCB "@ + dec(a.frames.len() as nat)
        + "          ; num_frames\n"@ + "    FCB "@ + dec(a.states.len() as nat)
        + "          ; num_states\n"@ + "    FCB $"@ + hex(controller_byte(a.controller) as nat, 2)
        + "        ; controller_flags (bit 0: mirror_on_left)\n"@
}

/// The pointers of the main table and the start of the frame table.
pub open spec fn head_pointers(a: VAnimAnimation, name: Seq<char>, label: Seq<char>) -> Seq<char> {
    "    FDB _"@ + label + "_FRAMES    ; Pointer to frame table\n"@ + (if a.states.len() == 0 {
        "    FDB $0000       ; No states\n"@
    } else {
        "    FDB _"@ + label + "_STATES    ; Pointer to state table\n"@
    }) + "\n"@ + "; Frame table for "@ + name + "\n"@ + "_"@ + label + "_FRAMES:\n"@
}

/// The header and the main table of an animation, up to the frame table's
/// label.
pub open spec fn anim_head(a: VAnimAnimation, name: Seq<char>, label: Seq<char>) -> Seq<char> {
    head_comments(a, name) + head_table(a, label) + head_pointers(a, name, label)
}

/// The comment and label of a frame's entry.
pub open spec fn frame_title(label: Seq<char>, idx: nat, f: VAnimFrame) -> Seq<char> {
    "    ; Frame "@ + dec(idx) + ": "@ + f.id@ + " (duration="@ + dec(f.duration as nat) + ")\n"@
        + "_"@ + label + "_"@ + label_of(f.id@) + "_FRAME:\n"@
}

/// The vector pointer, duration and intensity of a frame's entry.
pub open spec fn frame_data(f: VAnimFrame) -> Seq<char> {
    "    FDB "@ + "_"@ + label_of(f.vector_name@) + "_VECTORS"@ + "     ; Pointer to vector asset\n"@
        + "    FDB "@ + dec(f.duration as nat) + "          ; Duration (ticks)\n"@ + "    FCB "@
        + dec(f.intensity as nat) + "          ; Intensity\n"@
}

/// The offsets and mirror mode of a frame's entry.
pub open spec fn frame_place(f: VAnimFrame) -> Seq<char> {
    "    FDB "@ + dec((f.offset_x as u16) as nat) + "          ; Offset X\n"@ + "    FDB "@ + dec(
        (f.offset_y as u16) as nat,
    ) + "          ; Offset Y\n"@ + "    FCB "@ + dec(f.mirror as nat) + "          ; Mirror mode\n"@
}

/// The entry of one frame in the frame table.
pub open spec fn frame_text(label: Seq<char>, idx: nat, f: VAnimFrame) -> Seq<char> {
    frame_title(label, idx, f) + frame_data(f) + frame_place(f)
}

/// The entries of the first `n` frames.
pub open spec fn frames_text(label: Seq<char>, frames: Seq<VAnimFrame>, n: nat) -> Seq<char>
    decreases n,
{
    if n == 0 {
        Seq::empty()
    } else {
        frames_text(label, frames, (n - 1) as nat) + frame_text(label, (n - 1) as nat, frames[n - 1])
    }
}

/// The position of the first frame with the given id, or 0.
pub open spec fn frame_index(frames: Seq<VAnimFrame>, id: Seq<char>) -> nat {
    if has_frame(frames, id) {
        (choose|i: nat| i < frames.len() && frames[i as int].id@ == id && forall|j: int|
            0 <= j < i ==> frames[j].id@ != id)
    } else {
        0
    }
}

/// The frame-index entries of the first `n` frames of a state.
pub open spec fn state_frames_text(frames: Seq<VAnimFrame>, ids: Seq<String>, n: nat) -> Seq<char>
    decreases n,
{
    if n == 0 {
        Seq::empty()
    } else {
        state_frames_text(frames, ids, (n - 1) as nat) + "    FCB "@ + dec(
            frame_index(frames, ids[n - 1]@),
        ) + "          ; Frame index: "@ + ids[n - 1]@ + "\n"@
    }
}

/// The entry of one state in the state table.
pub open spec fn state_text(
    label: Seq<char>,
    frames: Seq<VAnimFrame>,
    name: Seq<char>,
    st: VAnimState,
) -> Seq<char> {
    "    ; State: "@ + name + "\n"@ + "_"@ + label + "_"@ + label_of(name) + "_STATE:\n"@
        + "    FCB "@ + dec(st.frames.len() as nat) + "          ; num_frames in state\n"@
        + "    FCB "@ + (if st.loop_state {
        "1"@
    } else {
        "0"@
    }) + "          ; loop_state (0=no, 1=yes)\n"@ + state_frames_text(
        frames,
        st.frames@,
        st.frames.len() as nat,
    )
}

/// The entries of the first `n` states.
pub open spec fn states_text(
    label: Seq<char>,
    frames: Seq<VAnimFrame>,
    states: Seq<(String, VAnimState)>,
    n: nat,
) -> Seq<char>
    decreases n,
{
    if n == 0 {
        Seq::empty()
    } else {
        states_text(label, frames, states, (n - 1) as nat) + state_text(
            label,
            frames,
            states[n - 1].0@,
            states[n - 1].1,
        )
    }
}

/// The assembly of an animation under a name: header and main table, the
/// frame table, and the state table when there are states.
pub open spec fn anim_text(a: VAnimAnimation, name: Seq<char>) -> Seq<char> {
    let label = label_of(name);
    anim_head(a, name, label) + frames_text(label, a.frames@, a.frames.len() as nat) + "\n"@ + (
    if a.states.len() == 0 {
        Seq::empty()
    } else {
        "; State table for "@ + name + "\n"@ + "_"@ + label + "_STATES:\n"@ + states_text(
            label,
            a.frames@,
            a.states@,
            a.states.len() as nat,
        ) + "\n"@
    })
}

fn label_exec(s: &str) -> (r: String)
    ensures
        r@ == label_of(s@),
{
    let up = to_upper(s);
    let v = crate::text::chars_of(up.as_str());
    let a = replace_char_vec(&v, ' ', '_');
    let b = replace_char_vec(&a, '-', '_');
    crate::text::string_of(&b)
}

fn frame_index_exec(frames: &Vec<VAnimFrame>, id: &String) -> (r: usize)
    ensures
        r == frame_index(frames@, id@),
{
    let mut i: usize = 0;
    while i < frames.len()
        invariant
            i <= frames.len(),
            forall|k: int| 0 <= k < i ==> #[trigger] frames@[k].id@ != id@,
        decreases frames.len() - i,
    {
        if str_eq(&frames[i].id, id) {
            proof {
                let c = choose|c: nat|
                    c < frames.len() && frames@[c as int].id@ == id@ && forall|j: int|
                        0 <= j < c ==> frames@[j].id@ != id@;
                assert((i as nat) < frames.len() && frames@[i as int].id@ == id@ && forall|j: int|
                    0 <= j < i ==> frames@[j].id@ != id@);
                if c < i {
                    assert(frames@[c as int].id@ != id@);
                } else if c > i {
                    assert(frames@[i as int].id@ != id@);
                }
            }
            return i;
        }
        i += 1;
    }
    0
}

fn push_frame_title(out: &mut String, label: &String, idx: usize, f: &VAnimFrame)
    ensures
        final(out)@ == old(out)@ + frame_title(label@, idx as nat, *f),
{
    push_str(out, "    ; Frame ");
    push_dec(out, idx as u64);
    push_str(out, ": ");
    push_str(out, &f.id);
    push_str(out, " (duration=");
    push_dec(out, f.duration as u64);
    push_str(out, ")\n");
    push_str(out, "_");
    push_str(out, label);
    push_str(out, "_");
    push_str(out, &label_exec(&f.id));
    push_str(out, "_FRAME:\n");
    assert(out@ =~= old(out)@ + frame_title(label@, idx as nat, *f));
}

fn push_frame_data(out: &mut String, f: &VAnimFrame)
    ensures
        final(out)@ == old(out)@ + frame_data(*f),
{
    push_str(out, "    FDB ");
    push_str(out, "_");
    push_str(out, &label_exec(&f.vector_name));
    push_str(out, "_VECTORS");
    push_str(out, "     ; Pointer to vector asset\n");
    push_str(out, "    FDB ");
    push_dec(out, f.duration as u64);
    push_str(out, "          ; Duration (ticks)\n");
    push_str(out, "    FCB ");
    push_dec(out, f.intensity as u64);
    push_str(out, "          ; Intensity\n");
    assert(out@ =~= old(out)@ + frame_data(*f));
}

fn push_frame_place(out: &mut String, f: &VAnimFrame)
    ensures
        final(out)@ == old(out)@ + frame_place(*f),
{
    push_str(out, "    FDB ");
    push_dec(out, (f.offset_x as u16) as u64);
    push_str(out, "          ; Offset X\n");
    push_str(out, "    FDB ");
    push_dec(out, (f.offset_y as u16) as u64);
    push_str(out, "          ; Offset Y\n");
    push_str(out, "    FCB ");
    push_dec(out, f.mirror as u64);
    push_str(out, "          ; Mirror mode\n");
    assert(out@ =~= old(out)@ + frame_place(*f));
}

fn push_frame(out: &mut String, label: &String, idx: usize, f: &VAnimFrame)
    ensures
        final(out)@ == old(out)@ + frame_text(label@, idx as nat, *f),
{
    push_frame_title(out, label, idx, f);
    push_frame_data(out, f);
    push_frame_place(out, f);
    assert(out@ =~= old(out)@ + frame_text(label@, idx as nat, *f));
}

fn push_head_comments(out: &mut String, a: &VAnimAnimation, name: &str)
    ensures
        final(out)@ == old(out)@ + head_comments(*a, name@),
{
    push_str(out, "; ===== ANIMATION: ");
    push_str(out, name);
    push_str(out, " =====\n");
    push_str(out, "; Version: ");
    push_str(out, &a.version);
    push_str(out, "\n");
    push_str(out, "; Frames: ");
    push_dec(out, a.frames.len() as u64);
    push_str(out, "\n");
    push_str(out, "; States: ");
    push_dec(out, a.states.len() as u64);
    push_str(out, "\n");
    push_str(out, "\n");
    assert(out@ =~= old(out)@ + head_comments(*a, name@));
}

fn push_head_table(out: &mut String, a: &VAnimAnimation, label: &String)
    ensures
        final(out)@ == old(out)@ + head_table(*a, label@),
{
    push_str(out, "_");
    push_str(out, label);
    push_str(out, "_ANIM:\n");
    push_str(out, "    FCB ");
    push_dec(out, a.frames.len() as u64);
    push_str(out, "          ; num_frames\n");
    push_str(out, "    FCB ");
    push_dec(out, a.states.len() as u64);
    push_str(out, "          ; num_states\n");
    let controller_byte: u8 = match &a.controller {
        Some(ctrl) => if ctrl.mirror_on_left {
            1
        } else {
            0
        },
        None => 0,
    };
    push_str(out, "    FCB $");
    push_hex(out, controller_byte as u64, 2);
    push_str(out, "        ; controller_flags (bit 0: mirror_on_left)\n");
    assert(out@ =~= old(out)@ + head_table(*a, label@));
}

fn push_head_pointers(out: &mut String, a: &VAnimAnimation, name: &str, label: &String)
    ensures
        final(out)@ == old(out)@ + head_pointers(*a, name@, label@),
{
    push_str(out, "    FDB _");
    push_str(out, label);
    push_str(out, "_FRAMES    ; Pointer to frame table\n");
    if a.states.len() == 0 {
        push_str(out, "    FDB $0000       ; No states\n");
    } else {
        push_str(out, "    FDB _");
        push_str(out, label);
        push_str(out, "_STATES    ; Pointer to state table\n");
    }
    push_str(out, "\n");
    push_str(out, "; Frame table for ");
    push_str(out, name);
    push_str(out, "\n");
    push_str(out, "_");
    push_str(out, label);
    push_str(out, "_FRAMES:\n");
    assert(out@ =~= old(out)@ + head_pointers(*a, name@, label@));
}

#[verifier::spinoff_prover]
#[verifier::rlimit(30)]
fn push_state(out: &mut String, label: &String, frames: &Vec<VAnimFrame>, name: &String, st: &VAnimState)
    ensures
        final(out)@ == old(out)@ + state_text(label@, frames@, name@, *st),
{
    push_str(out, "    ; State: ");
    push_str(out, name);
    push_str(out, "\n");
    push_str(out, "_");
    push_str(out, label);
    push_str(out, "_");
    push_str(out, &label_exec(name));
    push_str(out, "_STATE:\n");
    push_str(out, "    FCB ");
    push_dec(out, st.frames.len() as u64);
    push_str(out, "          ; num_frames in state\n");
    push_str(out, "    FCB ");
    if st.loop_state {
        push_str(out, "1");
    } else {
        push_str(out, "0");
    }
    push_str(out, "          ; loop_state (0=no, 1=yes)\n");
    let ghost head = out@;
    let mut k: usize = 0;
    while k < st.frames.len()
        invariant
            k <= st.frames.len(),
            out@ == head + state_frames_text(frames@, st.frames@, k as nat),
        decreases st.frames.len() - k,
    {
        let idx = frame_index_exec(frames, &st.frames[k]);
        push_str(out, "    FCB ");
        push_dec(out, idx as u64);
        push_str(out, "          ; Frame index: ");
        push_str(out, &st.frames[k]);
        push_str(out, "\n");
        assert(out@ =~= head + state_frames_text(frames@, st.frames@, (k + 1) as nat));
        k += 1;
    }
    assert(out@ =~= old(out)@ + state_text(label@, frames@, name@, *st));
}

impl VAnimAnimation {
    /// Compile animation to M6809 assembly with optional custom name (see
    /// `anim_text`).
    pub fn compile_to_asm_with_name(&self, override_name: Option<&str>) -> (r: String)
        ensures
            r@ == anim_text(
                *self,
                match override_name {
                    Some(n) => n@,
                    None => self.name@,
                },
            ),
    {
        let asset_name: &str = match override_name {
            Some(n) => n,
            None => self.name.as_str(),
        };
        let label_base = label_exec(asset_name);
        let mut out = String::new();
        push_head_comments(&mut out, self, asset_name);
        push_head_table(&mut out, self, &label_base);
        push_head_pointers(&mut out, self, asset_name, &label_base);
        let ghost head = out@;
        assert(head =~= anim_head(*self, asset_name@, label_base@));
        let mut idx: usize = 0;
        while idx < self.frames.len()
            invariant
                idx <= self.frames.len(),
                out@ == head + frames_text(label_base@, self.frames@, idx as nat),
            decreases self.frames.len() - idx,
        {
            push_frame(&mut out, &label_base, idx, &self.frames[idx]);
            assert(out@ =~= head + frames_text(label_base@, self.frames@, (idx + 1) as nat));
            idx += 1;
        }
        push_str(&mut out, "\n");
        let ghost mid = out@;
        if self.states.len() > 0 {
            push_str(&mut out, "; State table for ");
            push_str(&mut out, asset_name);
            push_str(&mut out, "\n");
            push_str(&mut out, "_");
            push_str(&mut out, &label_base);
            push_str(&mut out, "_STATES:\n");
            let ghost head2 = out@;
            let mut s: usize = 0;
            while s < self.states.len()
                invariant
                    s <= self.states.len(),
                    out@ == head2 + states_text(label_base@, self.frames@, self.states@, s as nat),
                decreases self.states.len() - s,
            {
                push_state(&mut out, &label_base, &self.frames, &self.states[s].0, &self.states[s].1);
                assert(out@ =~= head2 + states_text(
                    label_base@,
                    self.frames@,
                    self.states@,
                    (s + 1) as nat,
                ));
                s += 1;
            }
            push_str(&mut out, "\n");
        }
        assert(out@ =~= anim_text(*self, asset_name@));
        out
    }

    /// Compile animation to M6809 assembly (uses animation name from file)
    pub fn compile_to_asm(&self) -> (r: String)
        ensures
            r@ == anim_text(*self, self.name@),
    {
        self.compile_to_asm_with_name(None)
    }
}

} // verus!
