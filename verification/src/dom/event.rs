//! Event-listener modifiers (the `@event.*` directive modifiers).
use vstd::prelude::*;

verus! {

/// Modifiers that change how an event listener behaves (the `@event.*` directive
/// modifiers). Applied by the backend when the event fires; the handler itself is
/// unaware of them.
///
/// Fields fall in two groups. The first runs the handler then acts (or changes
/// registration): `prevent_default`, `stop_propagation`, `once`, `capture`,
/// `passive`. The rest are *guards* — when set, the handler runs only if the
/// event matches: `self_only` (target is this element), `keys` (`event.key` is
/// one of these), `buttons` (`event.button` is one of these), the system-modifier
/// flags `ctrl`/`alt`/`shift`/`meta` (the matching modifier key is held), and
/// `exact` (only the requested system modifiers are held, none other). An empty
/// `keys` / `buttons` means no filtering on that axis.
#[derive(Clone, Copy, Default, Debug, PartialEq, Eq)]
pub struct EventOptions {
    /// Call the event's `preventDefault()` before invoking the handler.
    pub prevent_default: bool,
    /// Call the event's `stopPropagation()` before invoking the handler.
    pub stop_propagation: bool,
    /// Detach the listener after it fires once.
    pub once: bool,
    /// Register the listener for the capture phase.
    pub capture: bool,
    /// Register the listener as passive (it will not call `preventDefault`).
    pub passive: bool,
    /// Run only when the event's target is the element itself (the `.self`
    /// modifier), not a descendant.
    pub self_only: bool,
    /// Run only when `event.key` matches one of these (the key modifiers, e.g.
    /// `@keyup.enter`). Empty means no key filtering.
    pub keys: &'static [&'static str],
    /// Run only when `event.button` matches one of these (the mouse-button
    /// modifiers, e.g. `@click.right`). Empty means no button filtering.
    pub buttons: &'static [u16],
    /// Run only when the Control key is held (the `.ctrl` modifier).
    pub ctrl: bool,
    /// Run only when the Alt key is held (the `.alt` modifier).
    pub alt: bool,
    /// Run only when the Shift key is held (the `.shift` modifier).
    pub shift: bool,
    /// Run only when the Meta key is held (the `.meta` modifier).
    pub meta: bool,
    /// Require *exactly* the requested system modifiers (the `.exact` modifier):
    /// every system modifier not set among `ctrl`/`alt`/`shift`/`meta` must be
    /// absent for the handler to run.
    pub exact: bool,
}

impl EventOptions {
    /// No modifiers: every flag off, no key or button filtering.
    pub open spec fn default_spec() -> EventOptions {
        EventOptions {
            prevent_default: false,
            stop_propagation: false,
            once: false,
            capture: false,
            passive: false,
            self_only: false,
            keys: &[],
            buttons: &[],
            ctrl: false,
            alt: false,
            shift: false,
            meta: false,
            exact: false,
        }
    }

    /// No modifiers (`EventOptions::default()`).
    pub fn none() -> (r: EventOptions)
        ensures
            r == Self::default_spec(),
    {
        EventOptions {
            prevent_default: false,
            stop_propagation: false,
            once: false,
            capture: false,
            passive: false,
            self_only: false,
            keys: &[],
            buttons: &[],
            ctrl: false,
            alt: false,
            shift: false,
            meta: false,
            exact: false,
        }
    }

    /// The requested system modifiers, in `[ctrl, alt, shift, meta]` order.
    pub open spec fn required(&self) -> Seq<bool> {
        seq![self.ctrl, self.alt, self.shift, self.meta]
    }

    /// Whether the system-modifier guards pass for the held modifiers `held`.
    pub open spec fn spec_system_modifiers_pass(&self, held: Seq<bool>) -> bool {
        forall|i: int| 0 <= i < 4 ==> {
            &&& (#[trigger] self.required()[i] ==> held[i])
            &&& (self.exact && !self.required()[i] ==> !held[i])
        }
    }

    /// Whether the system-modifier guards (`.ctrl`/`.alt`/`.shift`/`.meta` and
    /// `.exact`) pass given which modifier keys are held, in
    /// `[ctrl, alt, shift, meta]` order. Each requested modifier must be held;
    /// with `exact`, no modifier outside the requested set may be held.
    pub fn system_modifiers_pass(&self, held: [bool; 4]) -> (r: bool)
        ensures
            r == self.spec_system_modifiers_pass(held@),
    {
        let required = [self.ctrl, self.alt, self.shift, self.meta];
        assert(required@ =~= self.required());
        let mut i: usize = 0;
        while i < 4
            invariant
                i <= 4,
                required@ == self.required(),
                held@.len() == 4,
                forall|k: int| 0 <= k < i ==> {
                    &&& (#[trigger] self.required()[k] ==> held@[k])
                    &&& (self.exact && !self.required()[k] ==> !held@[k])
                },
            decreases 4 - i,
        {
            if required[i] && !held[i] {
                return false;
            }
            if self.exact && !required[i] && held[i] {
                return false;
            }
            i += 1;
        }
        true
    }
}

/// Whether a listener with modifiers `options` runs for an event: the
/// `.self` guard passes (the target is the element itself), a key guard finds
/// the event's key among its keys, a mouse-button guard finds the event's
/// button among its buttons, and the system-modifier guards pass for the held
/// modifiers. A guard that is not requested always passes.
pub open spec fn spec_listener_fires(
    options: EventOptions,
    target_is_self: bool,
    key: Option<Seq<char>>,
    button: Option<i16>,
    held: Seq<bool>,
) -> bool {
    &&& (!options.self_only || target_is_self)
    &&& (options.keys@.len() == 0 || (key matches Some(k)
        && exists|j: int| 0 <= j < options.keys@.len() && (#[trigger] options.keys@[j])@ == k))
    &&& (options.buttons@.len() == 0 || (button matches Some(b)
        && exists|j: int| 0 <= j < options.buttons@.len() && (#[trigger] options.buttons@[j]) as i16 == b))
    &&& (!(options.ctrl || options.alt || options.shift || options.meta || options.exact)
        || options.spec_system_modifiers_pass(held))
}

/// Decide whether a listener runs for an event, from the event's plain facts:
/// whether it targets the element itself, its key, its mouse button and the
/// held system modifiers (`[ctrl, alt, shift, meta]`). The backend prevents,
/// stops and calls the handler only when this holds.
pub fn listener_fires(
    options: &EventOptions,
    target_is_self: bool,
    key: Option<&str>,
    button: Option<i16>,
    held: [bool; 4],
) -> (r: bool)
    ensures
        r == spec_listener_fires(*options, target_is_self, match key {
            Some(k) => Some(k@),
            None => None,
        }, button, held@),
{
    if options.self_only && !target_is_self {
        return false;
    }
    if options.keys.len() > 0 {
        match key {
            None => return false,
            Some(k) => {
                let mut found = false;
                let mut j: usize = 0;
                while j < options.keys.len()
                    invariant
                        j <= options.keys@.len(),
                        found == exists|i: int| 0 <= i < j && (#[trigger] options.keys@[i])@ == k@,
                    decreases options.keys@.len() - j,
                {
                    if crate::text::str_eq(options.keys[j], k) {
                        found = true;
                    }
                    j += 1;
                }
                if !found {
                    return false;
                }
            },
        }
    }
    if options.buttons.len() > 0 {
        match button {
            None => return false,
            Some(b) => {
                let mut found = false;
                let mut j: usize = 0;
                while j < options.buttons.len()
                    invariant
                        j <= options.buttons@.len(),
                        found == exists|i: int| 0 <= i < j && (#[trigger] options.buttons@[i]) as i16 == b,
                    decreases options.buttons@.len() - j,
                {
                    if options.buttons[j] as i16 == b {
                        found = true;
                    }
                    j += 1;
                }
                if !found {
                    return false;
                }
            },
        }
    }
    if options.ctrl || options.alt || options.shift || options.meta || options.exact {
        return options.system_modifiers_pass(held);
    }
    true
}

/// Each system modifier is checked against its own key, with the held keys
/// given as `held = [ctrl, alt, shift, meta]`: the guard passes exactly when
/// every requested modifier's key is held and, with `.exact`, no other
/// modifier key is held.
pub proof fn law_system_modifiers_match_their_keys(options: EventOptions, held: Seq<bool>)
    requires
        held.len() == 4,
    ensures
        options.spec_system_modifiers_pass(held) <==> {
            &&& options.ctrl ==> held[0]
            &&& options.alt ==> held[1]
            &&& options.shift ==> held[2]
            &&& options.meta ==> held[3]
            &&& options.exact ==> (held[0] ==> options.ctrl) && (held[1] ==> options.alt)
                && (held[2] ==> options.shift) && (held[3] ==> options.meta)
        },
{
    let r = options.required();
    assert(r[0] == options.ctrl && r[1] == options.alt && r[2] == options.shift && r[3] == options.meta);
    if options.spec_system_modifiers_pass(held) {
        assert(r[0] ==> held[0]);
        assert(r[1] ==> held[1]);
        assert(r[2] ==> held[2]);
        assert(r[3] ==> held[3]);
    }
}

} // verus!
