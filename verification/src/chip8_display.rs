use vstd::prelude::*;
use crate::snapshot::{
    SnapshotValue, bin_map_payload, is_bin_map_snapshot, make_bin_map_snapshot,
    take_bin_map_payload,
};

verus! {

/// Width of the CHIP-8 screen in pixels.
pub const DISPLAY_WIDTH: usize = 64;

/// Height of the CHIP-8 screen in pixels.
pub const DISPLAY_HEIGHT: usize = 32;

/// Pixels of the screen; a pixel is on (fully white) or off (fully black).
pub const DISPLAY_PIXELS: usize = 2048;

/// The CHIP-8 variant a display is configured for.
#[derive(Copy, Clone, Debug, PartialEq, Eq)]
pub enum Chip8Kind {
    Chip8,
    Chip48,
    SuperChip8,
}

#[derive(Debug)]
pub struct Chip8DisplayConfig {
    pub kind: Chip8Kind,
}

/// What the runtime binds a display to; only the software backend lives
/// here, GPU backends stay with the surrounding program.
#[derive(Debug)]
pub enum DisplayComponentInitializationData {
    Software,
}

#[derive(Debug)]
pub struct Chip8DisplaySnapshot {
    pub screen_buffer: Vec<u8>,
}

/// Whether bit `x` (most significant first) of a sprite row byte is set.
pub open spec fn sprite_row_bit(b: u8, x: int) -> bool {
    ((b as u32) >> ((7 - x) as u32)) & 1 == 1
}

/// Whether the sprite drawn at `(px, py)` sets the pixel with linear index
/// `k` (`k = x + 64 * y`). Sprite pixels falling at `x >= 64` or `y >= 32`
/// are clipped: no index matches them.
pub open spec fn sprite_bit_at(px: int, py: int, sprite: Seq<u8>, k: int) -> bool {
    let x = k % 64;
    let y = k / 64;
    &&& px <= x < px + 8
    &&& py <= y < py + sprite.len()
    &&& sprite_row_bit(sprite[y - py], x - px)
}

/// The framebuffer after XOR-drawing the sprite at `(px, py)`.
pub open spec fn blit(fb: Seq<bool>, px: int, py: int, sprite: Seq<u8>) -> Seq<bool> {
    Seq::new(fb.len(), |k: int| fb[k] != sprite_bit_at(px, py, sprite, k))
}

/// Whether some visible on-bit of the sprite lands on a pixel that is
/// already on: the CHIP-8 collision condition.
pub open spec fn blit_collides(fb: Seq<bool>, px: int, py: int, sprite: Seq<u8>) -> bool {
    exists|k: int| 0 <= k < fb.len() && sprite_bit_at(px, py, sprite, k) && fb[k]
}

/// sRGBA8 encoding of the framebuffer: an on pixel is opaque white, an off
/// pixel opaque black.
pub open spec fn encode_fb(fb: Seq<bool>) -> Seq<u8> {
    Seq::new(
        fb.len() * 4,
        |j: int|
            if j % 4 == 3 {
                255u8
            } else if fb[j / 4] {
                255u8
            } else {
                0u8
            },
    )
}

/// The pixels an sRGBA8 byte string encodes: a pixel is on exactly when its
/// four bytes are opaque white.
pub open spec fn decode_fb(bytes: Seq<u8>) -> Seq<bool> {
    Seq::new(
        bytes.len() / 4,
        |k: int| bytes[4 * k] == 255 && bytes[4 * k + 1] == 255 && bytes[4 * k + 2] == 255
            && bytes[4 * k + 3] == 255,
    )
}

/// XOR-draw a sprite into a 64 x 32 framebuffer of on/off pixels, most
/// significant bit leftmost, clipping at the right and bottom edges; reports
/// whether an on-bit landed on a pixel that was already on.
pub fn draw_sprite_common(framebuffer: &mut Vec<bool>, position: (u8, u8), sprite: &Vec<u8>) -> (collided: bool)
    requires
        old(framebuffer)@.len() == DISPLAY_PIXELS,
        position.0 < 64,
        position.1 < 32,
    ensures
        final(framebuffer)@ == blit(
            old(framebuffer)@,
            position.0 as int,
            position.1 as int,
            sprite@,
        ),
        collided == blit_collides(old(framebuffer)@, position.0 as int, position.1 as int, sprite@),
{
    let px = position.0 as usize;
    let py = position.1 as usize;
    let rows = sprite.len();
    let ghost px_i = px as int;
    let ghost py_i = py as int;
    let mut collided = false;
    let mut yi: usize = 0;
    while yi < rows
        invariant
            0 <= yi <= rows,
            rows == sprite@.len(),
            framebuffer@.len() == DISPLAY_PIXELS,
            px == position.0 && py == position.1,
            px < 64 && py < 32,
            px_i == px as int && py_i == py as int,
            forall|k: int|
                0 <= k < DISPLAY_PIXELS ==> framebuffer@[k] == (old(framebuffer)@[k] != (
                sprite_bit_at(px_i, py_i, sprite@, k) && k / 64 - py_i < yi)),
            collided == exists|k: int|
                0 <= k < DISPLAY_PIXELS && sprite_bit_at(px_i, py_i, sprite@, k) && k / 64 - py_i
                    < yi && old(framebuffer)@[k],
        decreases rows - yi,
    {
        if yi < 32 && py + yi < 32 {
            let y = py + yi;
            let row = sprite[yi];
            let mut xi: usize = 0;
            while xi < 8
                invariant
                    0 <= xi <= 8,
                    yi < rows,
                    rows == sprite@.len(),
                    framebuffer@.len() == DISPLAY_PIXELS,
                    px < 64 && py < 32,
                    px_i == px as int && py_i == py as int,
                    y == py + yi && y < 32,
                    row == sprite@[yi as int],
                    forall|k: int|
                        0 <= k < DISPLAY_PIXELS ==> framebuffer@[k] == (old(framebuffer)@[k] != (
                        sprite_bit_at(px_i, py_i, sprite@, k) && (k / 64 - py_i < yi || (k / 64
                            - py_i == yi && k % 64 - px_i < xi)))),
                    collided == exists|k: int|
                        0 <= k < DISPLAY_PIXELS && sprite_bit_at(px_i, py_i, sprite@, k) && (k / 64
                            - py_i < yi || (k / 64 - py_i == yi && k % 64 - px_i < xi)) && old(
                            framebuffer,
                        )@[k],
                decreases 8 - xi,
            {
                let x = px + xi;
                if x < 64 {
                    let k = x + 64 * y;
                    let bit = ((row as u32) >> ((7 - xi) as u32)) & 1 == 1;
                    proof {
                        assert(k < DISPLAY_PIXELS);
                        assert(k as int % 64 == x as int);
                        assert(k as int / 64 == y as int);
                    }
                    let old_pixel = framebuffer[k];
                    proof {
                        assert(!(sprite_bit_at(px_i, py_i, sprite@, k as int) && (k as int / 64
                            - py_i < yi || (k as int / 64 - py_i == yi && k as int % 64 - px_i
                            < xi))));
                        assert(framebuffer@[k as int] == old(framebuffer)@[k as int]);
                        assert(bit == sprite_row_bit(sprite@[yi as int], xi as int));
                    }
                    if bit && old_pixel {
                        collided = true;
                    }
                    framebuffer[k] = bit != old_pixel;
                    proof {
                        assert forall|j: int| 0 <= j < DISPLAY_PIXELS implies framebuffer@[j] == (
                        old(framebuffer)@[j] != (sprite_bit_at(px_i, py_i, sprite@, j) && (j / 64
                            - py_i < yi || (j / 64 - py_i == yi && j % 64 - px_i < xi + 1)))) by {
                            if j != k as int {
                                assert(!(sprite_bit_at(px_i, py_i, sprite@, j) && j / 64 - py_i
                                    == yi && j % 64 - px_i == xi)) by {
                                    if j / 64 - py_i == yi && j % 64 - px_i == xi {
                                        assert(j == 64 * (j / 64) + j % 64);
                                        assert(j == k as int);
                                    }
                                }
                            } else {
                                assert(sprite_bit_at(px_i, py_i, sprite@, j) == bit);
                            }
                        }
                    }
                } else {
                    proof {
                        assert forall|j: int|
                            0 <= j < DISPLAY_PIXELS && sprite_bit_at(px_i, py_i, sprite@, j)
                                implies !(j / 64 - py_i == yi && j % 64 - px_i == xi) by {
                            assert(j % 64 < 64);
                        }
                    }
                }
                xi = xi + 1;
            }
            proof {
                assert forall|k: int|
                    0 <= k < DISPLAY_PIXELS && sprite_bit_at(px_i, py_i, sprite@, k) implies ((k
                    / 64 - py_i < yi || (k / 64 - py_i == yi && k % 64 - px_i < 8)) == (k / 64
                    - py_i < yi + 1)) by {
                    assert(k % 64 - px_i < 8);
                }
            }
        } else {
            proof {
                assert forall|k: int|
                    0 <= k < DISPLAY_PIXELS && sprite_bit_at(px_i, py_i, sprite@, k) implies !(k
                    / 64 - py_i == yi) by {
                    assert(k / 64 < 32);
                }
            }
        }
        yi = yi + 1;
    }
    proof {
        assert forall|k: int|
            0 <= k < DISPLAY_PIXELS && sprite_bit_at(px_i, py_i, sprite@, k) implies k / 64 - py_i
            < rows by {
            assert(k / 64 < py_i + sprite@.len());
        }
        assert(framebuffer@ =~= blit(old(framebuffer)@, px_i, py_i, sprite@));
    }
    collided
}

/// The software rendering backend: the 64 x 32 framebuffer the presenter
/// reads. Publishing happens through the shared buffer itself, so committing
/// a frame has no further observable effect here.
#[derive(Debug)]
pub struct SoftwareState {
    framebuffer: Vec<bool>,
}

impl SoftwareState {
    pub closed spec fn fb(&self) -> Seq<bool> {
        self.framebuffer@
    }

    pub open spec fn wf(&self) -> bool {
        self.fb().len() == DISPLAY_PIXELS
    }

    /// A fresh all-black screen.
    pub fn new() -> (r: Self)
        ensures
            r.wf(),
            r.fb() == Seq::new(DISPLAY_PIXELS as nat, |k: int| false),
    {
        let framebuffer = vec![false; DISPLAY_PIXELS];
        proof {
            assert(framebuffer@ =~= Seq::new(DISPLAY_PIXELS as nat, |k: int| false));
        }
        SoftwareState { framebuffer }
    }

    pub fn draw_sprite(&mut self, position: (u8, u8), sprite: &Vec<u8>) -> (collided: bool)
        requires
            old(self).wf(),
            position.0 < 64,
            position.1 < 32,
        ensures
            final(self).wf(),
            final(self).fb() == blit(
                old(self).fb(),
                position.0 as int,
                position.1 as int,
                sprite@,
            ),
            collided == blit_collides(
                old(self).fb(),
                position.0 as int,
                position.1 as int,
                sprite@,
            ),
    {
        draw_sprite_common(&mut self.framebuffer, position, sprite)
    }

    pub fn clear_display(&mut self)
        requires
            old(self).wf(),
        ensures
            final(self).wf(),
            final(self).fb() == Seq::new(DISPLAY_PIXELS as nat, |k: int| false),
    {
        let mut i: usize = 0;
        while i < DISPLAY_PIXELS
            invariant
                0 <= i <= DISPLAY_PIXELS,
                self.fb().len() == DISPLAY_PIXELS,
                forall|k: int| 0 <= k < i ==> self.fb()[k] == false,
            decreases DISPLAY_PIXELS - i,
        {
            self.framebuffer[i] = false;
            i = i + 1;
        }
        proof {
            assert(self.fb() =~= Seq::new(DISPLAY_PIXELS as nat, |k: int| false));
        }
    }

    /// The sRGBA8 image of the current screen.
    pub fn save_screen_contents(&self) -> (r: Vec<u8>)
        requires
            self.wf(),
        ensures
            r@ == encode_fb(self.fb()),
    {
        let mut r: Vec<u8> = Vec::new();
        let mut k: usize = 0;
        while k < DISPLAY_PIXELS
            invariant
                0 <= k <= DISPLAY_PIXELS,
                self.wf(),
                r@.len() == 4 * k,
                forall|j: int| 0 <= j < 4 * k ==> r@[j] == encode_fb(self.fb())[j],
            decreases DISPLAY_PIXELS - k,
        {
            let on = self.framebuffer[k];
            let c: u8 = if on {
                255
            } else {
                0
            };
            r.push(c);
            r.push(c);
            r.push(c);
            r.push(255);
            proof {
                assert forall|j: int| 0 <= j < 4 * (k + 1) implies r@[j] == encode_fb(self.fb())[j]
                    by {
                    if j >= 4 * k {
                        assert(j / 4 == k as int);
                        assert(j % 4 == j - 4 * k);
                    }
                }
            }
            k = k + 1;
        }
        proof {
            assert(r@ =~= encode_fb(self.fb()));
        }
        r
    }

    /// Install the screen an sRGBA8 image encodes; the image must hold
    /// exactly one 64 x 32 screen.
    pub fn load_screen_contents(&mut self, buffer: &Vec<u8>)
        requires
            old(self).wf(),
            buffer@.len() == 4 * DISPLAY_PIXELS,
        ensures
            final(self).wf(),
            final(self).fb() == decode_fb(buffer@),
    {
        let mut k: usize = 0;
        while k < DISPLAY_PIXELS
            invariant
                0 <= k <= DISPLAY_PIXELS,
                self.fb().len() == DISPLAY_PIXELS,
                buffer@.len() == 4 * DISPLAY_PIXELS,
                forall|j: int| 0 <= j < k ==> self.fb()[j] == decode_fb(buffer@)[j],
            decreases DISPLAY_PIXELS - k,
        {
            let on = buffer[4 * k] == 255 && buffer[4 * k + 1] == 255 && buffer[4 * k + 2] == 255
                && buffer[4 * k + 3] == 255;
            self.framebuffer[k] = on;
            k = k + 1;
        }
        proof {
            assert(self.fb() =~= decode_fb(buffer@));
        }
    }

    /// Hand the presenter the current image.
    pub fn get_framebuffer(&self) -> (r: Vec<u8>)
        requires
            self.wf(),
        ensures
            r@ == encode_fb(self.fb()),
    {
        self.save_screen_contents()
    }

    /// Publishing goes through the shared framebuffer, so there is nothing
    /// further to copy.
    pub fn commit_display(&self) {
    }
}

/// The CHIP-8 display component: an immutable variant configuration, a
/// backend bound once by the runtime, and a modified flag that drives the
/// scheduled frame commits.
#[derive(Debug)]
pub struct Chip8Display {
    config: Chip8DisplayConfig,
    state: SoftwareState,
    bound: bool,
    modified: bool,
}

/// Key under which the snapshot stores the screen: the text "screen_buffer".
pub open spec fn key_screen_buffer() -> Seq<u8> {
    seq![
        0x73u8,
        0x63u8,
        0x72u8,
        0x65u8,
        0x65u8,
        0x6eu8,
        0x5fu8,
        0x62u8,
        0x75u8,
        0x66u8,
        0x66u8,
        0x65u8,
        0x72u8,
    ]
}

fn screen_buffer_key() -> (r: Vec<u8>)
    ensures
        r@ == key_screen_buffer(),
{
    let mut r: Vec<u8> = Vec::new();
    r.push(0x73);
    r.push(0x63);
    r.push(0x72);
    r.push(0x65);
    r.push(0x65);
    r.push(0x6e);
    r.push(0x5f);
    r.push(0x62);
    r.push(0x75);
    r.push(0x66);
    r.push(0x66);
    r.push(0x65);
    r.push(0x72);
    proof {
        assert(r@ =~= key_screen_buffer());
    }
    r
}

impl Chip8Display {
    pub closed spec fn cfg(&self) -> Chip8DisplayConfig {
        self.config
    }

    /// Whether the runtime has bound a backend yet.
    pub closed spec fn is_initialized(&self) -> bool {
        self.bound
    }

    pub closed spec fn fb(&self) -> Seq<bool> {
        self.state.fb()
    }

    pub closed spec fn is_modified(&self) -> bool {
        self.modified
    }

    pub open spec fn wf(&self) -> bool {
        self.fb().len() == DISPLAY_PIXELS
    }

    /// A display awaiting its one-time backend binding.
    pub fn from_config(config: Chip8DisplayConfig) -> (r: Self)
        ensures
            r.wf(),
            r.cfg() == config,
            !r.is_initialized(),
            !r.is_modified(),
            r.fb() == Seq::new(DISPLAY_PIXELS as nat, |k: int| false),
    {
        Chip8Display { config, state: SoftwareState::new(), bound: false, modified: false }
    }

    /// One-shot backend binding; a second binding is ignored, as a one-time
    /// cell ignores it.
    pub fn set_display_data(&mut self, data: DisplayComponentInitializationData)
        requires
            old(self).wf(),
        ensures
            final(self).wf(),
            final(self).cfg() == old(self).cfg(),
            final(self).is_initialized(),
            final(self).is_modified() == old(self).is_modified(),
            final(self).fb() == if old(self).is_initialized() {
                old(self).fb()
            } else {
                Seq::new(DISPLAY_PIXELS as nat, |k: int| false)
            },
    {
        match data {
            DisplayComponentInitializationData::Software => {
                if !self.bound {
                    self.state = SoftwareState::new();
                    self.bound = true;
                }
            },
        }
    }

    /// XOR-draw a sprite. The entry position wraps modulo 63 and 31 for the
    /// CHIP-8 and CHIP-48 variants (not 64 and 32: the observed behaviour of
    /// the modelled hardware is kept); pixels past the right or bottom edge
    /// are clipped. Reports whether an on-bit hit a lit pixel, and marks the
    /// display modified.
    pub fn draw_sprite(&mut self, position: (u8, u8), sprite: &Vec<u8>) -> (collided: bool)
        requires
            old(self).wf(),
            old(self).is_initialized(),
            old(self).cfg().kind != Chip8Kind::SuperChip8,
        ensures
            final(self).wf(),
            final(self).cfg() == old(self).cfg(),
            final(self).is_initialized(),
            final(self).is_modified(),
            final(self).fb() == blit(
                old(self).fb(),
                (position.0 % 63) as int,
                (position.1 % 31) as int,
                sprite@,
            ),
            collided == blit_collides(
                old(self).fb(),
                (position.0 % 63) as int,
                (position.1 % 31) as int,
                sprite@,
            ),
    {
        let wrapped = (position.0 % 63, position.1 % 31);
        self.modified = true;
        self.state.draw_sprite(wrapped, sprite)
    }

    /// Turn every pixel off. The modified flag is left as it was: only
    /// sprite draws drive frame commits.
    pub fn clear_display(&mut self)
        requires
            old(self).wf(),
            old(self).is_initialized(),
        ensures
            final(self).wf(),
            final(self).cfg() == old(self).cfg(),
            final(self).is_initialized(),
            final(self).is_modified() == old(self).is_modified(),
            final(self).fb() == Seq::new(DISPLAY_PIXELS as nat, |k: int| false),
    {
        self.state.clear_display();
    }

    /// Leave the display in its just-constructed observable state: a black
    /// screen.
    pub fn reset(&mut self)
        requires
            old(self).wf(),
            old(self).is_initialized(),
        ensures
            final(self).wf(),
            final(self).cfg() == old(self).cfg(),
            final(self).is_initialized(),
            final(self).fb() == Seq::new(DISPLAY_PIXELS as nat, |k: int| false),
    {
        self.clear_display();
    }

    /// One scheduler tick at the declared 60 Hz: when a draw has happened
    /// since the last tick, commit the frame and clear the flag.
    pub fn run(&mut self, _period: u64)
        requires
            old(self).wf(),
        ensures
            final(self).wf(),
            final(self).cfg() == old(self).cfg(),
            final(self).is_initialized() == old(self).is_initialized(),
            final(self).fb() == old(self).fb(),
            !final(self).is_modified(),
    {
        if self.modified {
            self.modified = false;
            self.state.commit_display();
        }
    }

    /// Hand the presenter the current sRGBA8 image.
    pub fn get_framebuffer(&self) -> (r: Vec<u8>)
        requires
            self.wf(),
            self.is_initialized(),
        ensures
            r@ == encode_fb(self.fb()),
    {
        self.state.get_framebuffer()
    }

    /// Capture the full pixel matrix as a one-entry map snapshot.
    pub fn save_snapshot(&self) -> (r: SnapshotValue)
        requires
            self.wf(),
            self.is_initialized(),
        ensures
            is_bin_map_snapshot(r, key_screen_buffer(), encode_fb(self.fb())),
    {
        let screen_buffer = self.state.save_screen_contents();
        let snap = Chip8DisplaySnapshot { screen_buffer };
        make_bin_map_snapshot(screen_buffer_key(), snap.screen_buffer)
    }

    /// Restore the screen from a snapshot. Succeeds exactly when the value
    /// has the snapshot shape and holds one full screen; on failure the
    /// display is untouched.
    pub fn load_snapshot(&mut self, state: SnapshotValue) -> (r: bool)
        requires
            old(self).wf(),
            old(self).is_initialized(),
        ensures
            final(self).wf(),
            final(self).cfg() == old(self).cfg(),
            final(self).is_initialized(),
            match bin_map_payload(state, key_screen_buffer()) {
                Some(b) => if b.len() == 4 * DISPLAY_PIXELS {
                    r && final(self).fb() == decode_fb(b)
                } else {
                    !r && *final(self) == *old(self)
                },
                None => !r && *final(self) == *old(self),
            },
    {
        let key = screen_buffer_key();
        match take_bin_map_payload(state, &key) {
            Some(buffer) => {
                if buffer.len() != 4 * DISPLAY_PIXELS {
                    return false;
                }
                self.state.load_screen_contents(&buffer);
                true
            },
            None => false,
        }
    }
}

/// Law: the sRGBA8 image encoding loses nothing: decoding an encoded
/// framebuffer returns exactly the pixels that were encoded. With the
/// snapshot contracts this gives the display's snapshot round trip: a load
/// of a saved screen restores every pixel.
pub proof fn lemma_display_snapshot_roundtrip(fb: Seq<bool>)
    ensures
        decode_fb(encode_fb(fb)) == fb,
        encode_fb(fb).len() == 4 * fb.len(),
{
    let bytes = encode_fb(fb);
    assert forall|k: int| 0 <= k < fb.len() implies decode_fb(bytes)[k] == fb[k] by {
        assert((4 * k) % 4 == 0 && (4 * k) / 4 == k);
        assert((4 * k + 1) % 4 == 1 && (4 * k + 1) / 4 == k);
        assert((4 * k + 2) % 4 == 2 && (4 * k + 2) / 4 == k);
        assert((4 * k + 3) % 4 == 3 && (4 * k + 3) / 4 == k);
        if fb[k] {
            assert(bytes[4 * k] == 255);
        } else {
            assert(bytes[4 * k] == 0);
        }
    }
    assert(decode_fb(encode_fb(fb)) =~= fb);
}

/// Law: display reset is deterministic: any two displays show the same
/// all-black screen after a reset, whatever their histories were.
pub proof fn lemma_display_reset_determinism(a: Seq<bool>, b: Seq<bool>)
    requires
        a == Seq::new(DISPLAY_PIXELS as nat, |k: int| false),
        b == Seq::new(DISPLAY_PIXELS as nat, |k: int| false),
    ensures
        encode_fb(a) == encode_fb(b),
{
}

/// Law: drawing the same sprite twice at the same position restores the
/// framebuffer, and the second draw collides exactly when some visible
/// on-bit of the sprite lands on a pixel the first draw left on, that is,
/// on a pixel that was off before the first draw.
pub proof fn lemma_sprite_xor(fb: Seq<bool>, px: int, py: int, sprite: Seq<u8>)
    ensures
        blit(blit(fb, px, py, sprite), px, py, sprite) == fb,
        blit_collides(blit(fb, px, py, sprite), px, py, sprite) <==> exists|k: int|
            0 <= k < fb.len() && sprite_bit_at(px, py, sprite, k) && !fb[k],
{
    let fb1 = blit(fb, px, py, sprite);
    assert(blit(fb1, px, py, sprite) =~= fb);
    if blit_collides(fb1, px, py, sprite) {
        let k = choose|k: int|
            0 <= k < fb1.len() && sprite_bit_at(px, py, sprite, k) && fb1[k];
        assert(0 <= k < fb.len() && sprite_bit_at(px, py, sprite, k) && !fb[k]);
    }
    if exists|k: int| 0 <= k < fb.len() && sprite_bit_at(px, py, sprite, k) && !fb[k] {
        let k = choose|k: int| 0 <= k < fb.len() && sprite_bit_at(px, py, sprite, k) && !fb[k];
        assert(fb1[k]);
        assert(blit_collides(fb1, px, py, sprite));
    }
}

} // verus!
