use vstd::prelude::*;
use pc_keyboard::layouts::Us104Key;
use pc_keyboard::{DecodedKey, HandleControl, KeyEvent, KeyState, Keyboard, ScancodeSet1};
use pc_keyboard::KeyCode as PhysicalKey;

verus! {

/// The keys whose raw codes the system tells apart.
#[derive(Debug, Clone, Copy, PartialEq, Eq, Structural)]
pub enum KeyCode {
    Escape,
    ArrowUp,
    ArrowDown,
    Return,
    Other,
}

/// A decoded key press: a key without a character, or the character it types.
#[derive(Debug, Clone, Copy, PartialEq, Eq, Structural)]
pub enum Key {
    RawKey(KeyCode),
    Unicode(char),
}

/// The slot that holds the handler key presses go to, if any.
pub struct KeyHandlerSlot<H> {
    handler: Option<H>,
}

impl<H: Copy> KeyHandlerSlot<H> {
    pub closed spec fn handler(&self) -> Option<H> {
        self.handler
    }

    /// An empty slot.
    pub fn new() -> (s: Self)
        ensures
            s.handler() == None::<H>,
    {
        KeyHandlerSlot { handler: None }
    }
}

/// Installs `handler` for key presses, replacing any other.
pub fn set_key_handler<H: Copy>(slot: &mut KeyHandlerSlot<H>, handler: H)
    ensures
        final(slot).handler() == Some(handler),
{
    slot.handler = Some(handler);
}

/// Removes the key handler.
pub fn clear_key_handler<H: Copy>(slot: &mut KeyHandlerSlot<H>)
    ensures
        final(slot).handler() == None::<H>,
{
    slot.handler = None;
}

/// The handler a key press goes to: the installed one, if any.
pub fn handle_key<H: Copy>(slot: &KeyHandlerSlot<H>) -> (r: Option<H>)
    ensures
        r == slot.handler(),
{
    slot.handler
}

#[verifier::external_type_specification]
#[verifier::external_body]
pub struct ExKeyboardError(pc_keyboard::Error);

#[verifier::external_type_specification]
#[verifier::external_body]
pub struct ExKeyEvent(KeyEvent);

/// What happened to a key: released, pressed, or both at once.
#[derive(PartialEq, Eq, Structural)]
enum KeyMotion {
    Up,
    Down,
    SingleShot,
}

/// A key event from the scancode decoder, with what happened to the key read out.
struct ScanEvent {
    event: KeyEvent,
    motion: KeyMotion,
}

/// The key that pc-keyboard's decoder (`Keyboard` for scancode set 1 and the US 104-key
/// layout, control combinations left alone), made fresh and fed `bytes` in order,
/// gives for the last of them: each byte goes to `Keyboard::add_byte`, and each key
/// event that this hands back goes to `Keyboard::process_keyevent`, whose decoded key
/// is converted to `Key`. `None` where the last byte completes no key event, the
/// decoder rejects it, or the event decodes to no key.
pub uninterp spec fn decoded_key(bytes: Seq<u8>) -> Option<Key>;

/// pc-keyboard's decoder itself; its type is bounded by pc-keyboard's own traits, so it
/// is held opaquely.
#[verifier::external_body]
struct DecoderCore {
    keyboard: Keyboard<Us104Key, ScancodeSet1>,
}

/// The keyboard decoder: turns PS/2 scancodes (set 1, US 104-key layout) into key
/// presses. Beside pc-keyboard's decoder it records the bytes fed to it so far, and the
/// key event that still awaits decoding, if any.
pub struct KeyDecoder {
    core: DecoderCore,
    fed: Ghost<Seq<u8>>,
    pending: Ghost<Option<ScanEvent>>,
}

impl KeyDecoder {
    /// The scancode bytes fed to the decoder so far, oldest first.
    pub closed spec fn fed(&self) -> Seq<u8> {
        self.fed@
    }

    /// No key event awaits decoding: the decoder is between bytes.
    pub closed spec fn idle(&self) -> bool {
        self.pending@ is None
    }

    spec fn pending(&self) -> Option<ScanEvent> {
        self.pending@
    }

    /// `pc_keyboard::Keyboard::new` for scancode set 1 and the US 104-key layout, with
    /// control combinations left alone: a fresh decoder, fed nothing yet.
    #[verifier::external_body]
    pub fn new() -> (d: KeyDecoder)
        ensures
            d.fed() == Seq::<u8>::empty(),
            d.idle(),
    {
        let keyboard = Keyboard::new(ScancodeSet1::new(), Us104Key, HandleControl::Ignore);
        KeyDecoder { core: DecoderCore { keyboard }, fed: Ghost(Seq::empty()), pending: Ghost(None) }
    }
}

/// `pc_keyboard::Keyboard::add_byte`: feeds one scancode byte to the scancode set 1
/// decoder, which records it; a key event that comes back awaits decoding. Claimed, as
/// the decoder's source shows for each of its states: a byte below 0x80 gives a
/// key-down event or an error; a byte from 0x80 up gives a key-up event, an error, or,
/// for the prefixes 0xE0 and 0xE1 only, no event; and where no event comes back, the
/// bytes fed decode to no key. Which key, and whether the byte is rejected, depend on
/// the bytes fed before and are not claimed.
#[verifier::external_body]
fn keyboard_add_byte(d: &mut KeyDecoder, byte: u8) -> (r: Result<Option<ScanEvent>, pc_keyboard::Error>)
    requires
        old(d).idle(),
    ensures
        final(d).fed() == old(d).fed().push(byte),
        r matches Ok(Some(e)) ==> final(d).pending() == Some(e),
        !(r matches Ok(Some(_))) ==> final(d).idle() && decoded_key(final(d).fed()) == None::<Key>,
        byte < 0x80 ==> match r {
            Ok(Some(e)) => e.motion == KeyMotion::Down,
            Ok(None) => false,
            Err(_) => true,
        },
        byte >= 0x80 ==> match r {
            Ok(Some(e)) => e.motion == KeyMotion::Up,
            Ok(None) => byte == 0xE0 || byte == 0xE1,
            Err(_) => true,
        },
{
    let r = match d.core.keyboard.add_byte(byte) {
        Ok(Some(ev)) => {
            let motion = match ev.state {
                KeyState::Up => KeyMotion::Up,
                KeyState::Down => KeyMotion::Down,
                KeyState::SingleShot => KeyMotion::SingleShot,
            };
            Ok(Some(ScanEvent { event: ev, motion }))
        },
        Ok(None) => Ok(None),
        Err(e) => Err(e),
    };
    d.fed = Ghost(d.fed@.push(byte));
    r
}

/// `pc_keyboard::Keyboard::process_keyevent` on the event that awaits decoding, with
/// the decoded key converted to `Key` one variant for one (raw codes the system does
/// not tell apart become `Other`). Claimed: the result is the name `decoded_key` of the
/// bytes fed; and, as the source shows, a key-down event decodes to a key and any other
/// event to none. Which key depends on the modifier keys held and is not claimed.
#[verifier::external_body]
fn keyboard_process_keyevent(d: &mut KeyDecoder, ev: ScanEvent) -> (r: Option<Key>)
    requires
        old(d).pending() == Some(ev),
    ensures
        final(d).fed() == old(d).fed(),
        final(d).idle(),
        r == decoded_key(old(d).fed()),
        r is Some <==> ev.motion == KeyMotion::Down,
{
    let r = match d.core.keyboard.process_keyevent(ev.event) {
        Some(DecodedKey::Unicode(c)) => Some(Key::Unicode(c)),
        Some(DecodedKey::RawKey(PhysicalKey::Escape)) => Some(Key::RawKey(KeyCode::Escape)),
        Some(DecodedKey::RawKey(PhysicalKey::ArrowUp)) => Some(Key::RawKey(KeyCode::ArrowUp)),
        Some(DecodedKey::RawKey(PhysicalKey::ArrowDown)) => Some(Key::RawKey(KeyCode::ArrowDown)),
        Some(DecodedKey::RawKey(PhysicalKey::Return)) => Some(Key::RawKey(KeyCode::Return)),
        Some(DecodedKey::RawKey(_)) => Some(Key::RawKey(KeyCode::Other)),
        None => None,
    };
    d.pending = Ghost(None);
    r
}

/// Feeds one scancode byte read from the keyboard port to the decoder and returns the
/// key that the bytes fed so far decode to, if any. A release (break) code or a prefix
/// byte, 0x80 and up, never gives a key; a byte below 0x80 gives one exactly when the
/// decoder accepts it, which depends on the bytes fed before.
pub fn decode_scancode(decoder: &mut KeyDecoder, scancode: u8) -> (r: Option<Key>)
    requires
        old(decoder).idle(),
    ensures
        final(decoder).idle(),
        final(decoder).fed() == old(decoder).fed().push(scancode),
        r == decoded_key(final(decoder).fed()),
        scancode >= 0x80 ==> r is None,
{
    match keyboard_add_byte(decoder, scancode) {
        Ok(Some(key_event)) => keyboard_process_keyevent(decoder, key_event),
        _ => None,
    }
}

} // verus!
