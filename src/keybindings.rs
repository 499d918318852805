use vstd::prelude::*;
use crate::text::{chars_of, string_from_chars};

verus! {

/// The keyboard keys a binding may use.
#[derive(Debug, Clone, Copy, PartialEq, Eq, Structural)]
pub enum Key {
    Space,
    A,
    B,
    C,
    D,
    E,
    F,
    G,
    H,
    I,
    J,
    K,
    L,
    M,
    N,
    O,
    P,
    Q,
    R,
    S,
    T,
    U,
    V,
    W,
    X,
    Y,
    Z,
}

/// The mouse buttons a binding may use.
#[derive(Debug, Clone, Copy, PartialEq, Eq, Structural)]
pub enum PointerButton {
    Primary,
    Secondary,
    Middle,
}

/// A key or a mouse button.
#[derive(Debug, Clone, Copy, PartialEq, Eq, Structural)]
pub enum InputBinding {
    Key(Key),
    MouseButton(PointerButton),
}

/// Whether an action is bound to the keyboard or the mouse.
#[derive(Debug, Clone, Copy, PartialEq, Eq, Structural)]
pub enum InputMode {
    Keyboard,
    Mouse,
}

/// The editor actions that can be bound.
#[derive(Debug, Clone, Copy, PartialEq, Eq, Structural)]
pub enum BindingType {
    Pan,
    PlaceBlock,
    RemoveBlock,
    ZoomIn,
    ZoomOut,
    Save,
    Open,
}

/// The binding of every editor action.
#[derive(Debug, Clone, Copy, PartialEq, Eq, Structural)]
pub struct KeyBindings {
    pub pan: InputBinding,
    pub place_block: InputBinding,
    pub remove_block: InputBinding,
    pub zoom_in: InputBinding,
    pub zoom_out: InputBinding,
    pub save: InputBinding,
    pub open: InputBinding,
}

/// The bindings the editor starts with.
pub open spec fn default_bindings() -> KeyBindings {
    KeyBindings {
        pan: InputBinding::MouseButton(PointerButton::Middle),
        place_block: InputBinding::MouseButton(PointerButton::Primary),
        remove_block: InputBinding::MouseButton(PointerButton::Secondary),
        zoom_in: InputBinding::Key(Key::E),
        zoom_out: InputBinding::Key(Key::Q),
        save: InputBinding::Key(Key::S),
        open: InputBinding::Key(Key::O),
    }
}

impl Default for KeyBindings {
    fn default() -> (r: Self)
        ensures
            r == default_bindings(),
    {
        KeyBindings {
            pan: InputBinding::MouseButton(PointerButton::Middle),
            place_block: InputBinding::MouseButton(PointerButton::Primary),
            remove_block: InputBinding::MouseButton(PointerButton::Secondary),
            zoom_in: InputBinding::Key(Key::E),
            zoom_out: InputBinding::Key(Key::Q),
            save: InputBinding::Key(Key::S),
            open: InputBinding::Key(Key::O),
        }
    }
}

/// The binding of one action.
pub open spec fn binding_of(b: KeyBindings, t: BindingType) -> InputBinding {
    match t {
        BindingType::Pan => b.pan,
        BindingType::PlaceBlock => b.place_block,
        BindingType::RemoveBlock => b.remove_block,
        BindingType::ZoomIn => b.zoom_in,
        BindingType::ZoomOut => b.zoom_out,
        BindingType::Save => b.save,
        BindingType::Open => b.open,
    }
}

/// `s` begins with `p`.
pub open spec fn starts_with(s: Seq<char>, p: Seq<char>) -> bool {
    s.len() >= p.len() && s.take(p.len() as int) == p
}

/// `s` without every leading copy of `p`, as `str::trim_start_matches` gives it.
pub open spec fn strip_all(s: Seq<char>, p: Seq<char>) -> Seq<char>
    decreases s.len(),
{
    if p.len() > 0 && starts_with(s, p) {
        strip_all(s.skip(p.len() as int), p)
    } else {
        s
    }
}

/// The key a saved key name stands for; only these names are read back.
pub open spec fn parsed_key(name: Seq<char>) -> Option<Key> {
    if name == "Space"@ { Some(Key::Space) }
    else if name == "E"@ { Some(Key::E) }
    else if name == "Q"@ { Some(Key::Q) }
    else if name == "Z"@ { Some(Key::Z) }
    else if name == "X"@ { Some(Key::X) }
    else if name == "S"@ { Some(Key::S) }
    else if name == "O"@ { Some(Key::O) }
    else if name == "A"@ { Some(Key::A) }
    else if name == "W"@ { Some(Key::W) }
    else if name == "D"@ { Some(Key::D) }
    else { None }
}

/// The mouse button a saved button name stands for.
pub open spec fn parsed_button(name: Seq<char>) -> Option<PointerButton> {
    if name == "Primary"@ { Some(PointerButton::Primary) }
    else if name == "Secondary"@ { Some(PointerButton::Secondary) }
    else if name == "Middle"@ { Some(PointerButton::Middle) }
    else { None }
}

/// A saved binding read back: `Key:<name>` or `Mouse:<name>`, or `default`
/// for anything else.
pub open spec fn parse_binding_spec(s: Seq<char>, default: InputBinding) -> InputBinding {
    if starts_with(s, "Key:"@) {
        match parsed_key(strip_all(s, "Key:"@)) {
            Some(k) => InputBinding::Key(k),
            None => default,
        }
    } else if starts_with(s, "Mouse:"@) {
        match parsed_button(strip_all(s, "Mouse:"@)) {
            Some(b) => InputBinding::MouseButton(b),
            None => default,
        }
    } else {
        default
    }
}

/// The name a key is saved under.
pub open spec fn key_text(k: Key) -> Seq<char> {
    match k {
        Key::Space => "Space"@,
        Key::A => "A"@,
        Key::B => "B"@,
        Key::C => "C"@,
        Key::D => "D"@,
        Key::E => "E"@,
        Key::F => "F"@,
        Key::G => "G"@,
        Key::H => "H"@,
        Key::I => "I"@,
        Key::J => "J"@,
        Key::K => "K"@,
        Key::L => "L"@,
        Key::M => "M"@,
        Key::N => "N"@,
        Key::O => "O"@,
        Key::P => "P"@,
        Key::Q => "Q"@,
        Key::R => "R"@,
        Key::S => "S"@,
        Key::T => "T"@,
        Key::U => "U"@,
        Key::V => "V"@,
        Key::W => "W"@,
        Key::X => "X"@,
        Key::Y => "Y"@,
        Key::Z => "Z"@,
    }
}

/// The name a mouse button is saved under.
pub open spec fn button_text(b: PointerButton) -> Seq<char> {
    match b {
        PointerButton::Primary => "Primary"@,
        PointerButton::Secondary => "Secondary"@,
        PointerButton::Middle => "Middle"@,
    }
}

/// How a binding is saved: `Key:<name>` or `Mouse:<name>`.
pub open spec fn binding_text(b: InputBinding) -> Seq<char> {
    match b {
        InputBinding::Key(k) => "Key:"@ + key_text(k),
        InputBinding::MouseButton(m) => "Mouse:"@ + button_text(m),
    }
}

/// The name a key is saved under.
pub fn key_name(k: Key) -> (r: &'static str)
    ensures
        r@ == key_text(k),
{
    match k {
        Key::Space => "Space",
        Key::A => "A",
        Key::B => "B",
        Key::C => "C",
        Key::D => "D",
        Key::E => "E",
        Key::F => "F",
        Key::G => "G",
        Key::H => "H",
        Key::I => "I",
        Key::J => "J",
        Key::K => "K",
        Key::L => "L",
        Key::M => "M",
        Key::N => "N",
        Key::O => "O",
        Key::P => "P",
        Key::Q => "Q",
        Key::R => "R",
        Key::S => "S",
        Key::T => "T",
        Key::U => "U",
        Key::V => "V",
        Key::W => "W",
        Key::X => "X",
        Key::Y => "Y",
        Key::Z => "Z",
    }
}

/// The name a mouse button is saved under.
pub fn button_name(b: PointerButton) -> (r: &'static str)
    ensures
        r@ == button_text(b),
{
    match b {
        PointerButton::Primary => "Primary",
        PointerButton::Secondary => "Secondary",
        PointerButton::Middle => "Middle",
    }
}

fn vec_starts_with(s: &Vec<char>, from: usize, p: &Vec<char>) -> (r: bool)
    requires
        from <= s@.len(),
    ensures
        r == starts_with(s@.skip(from as int), p@),
{
    if s.len() - from < p.len() {
        return false;
    }
    let n = s.len();
    let mut i: usize = 0;
    while i < p.len()
        invariant
            0 <= i <= p@.len(),
            n == s@.len(),
            from + p@.len() <= s@.len(),
            forall|j: int| 0 <= j < i ==> s@[from + j] == p@[j],
        decreases p.len() - i,
    {
        if s[from + i] != p[i] {
            assert(s@.skip(from as int).take(p@.len() as int)[i as int] != p@[i as int]);
            return false;
        }
        i = i + 1;
    }
    assert(s@.skip(from as int).take(p@.len() as int) =~= p@);
    true
}

/// The characters of `s` after every leading copy of `p`.
fn strip_all_exec(s: &Vec<char>, p: &Vec<char>) -> (r: Vec<char>)
    requires
        p@.len() > 0,
    ensures
        r@ == strip_all(s@, p@),
{
    let n = s.len();
    let mut i: usize = 0;
    assert(s@.skip(0) =~= s@);
    while vec_starts_with(s, i, p)
        invariant
            i <= s@.len(),
            n == s@.len(),
            p@.len() > 0,
            strip_all(s@, p@) == strip_all(s@.skip(i as int), p@),
        decreases s@.len() - i,
    {
        assert(s@.skip(i as int).skip(p@.len() as int) =~= s@.skip(i + p@.len()));
        i = i + p.len();
    }
    let mut r: Vec<char> = Vec::new();
    let mut j: usize = i;
    while j < s.len()
        invariant
            i <= j <= s@.len(),
            r@ == s@.subrange(i as int, j as int),
        decreases s.len() - j,
    {
        r.push(s[j]);
        j = j + 1;
    }
    assert(r@ =~= s@.skip(i as int));
    r
}

fn chars_are(v: &Vec<char>, lit: &str) -> (r: bool)
    ensures
        r == (v@ == lit@),
{
    let w = chars_of(lit);
    if v.len() != w.len() {
        return false;
    }
    let mut i: usize = 0;
    while i < v.len()
        invariant
            w@ == lit@,
            v@.len() == w@.len(),
            0 <= i <= v@.len(),
            forall|j: int| 0 <= j < i ==> v@[j] == w@[j],
        decreases v.len() - i,
    {
        if v[i] != w[i] {
            return false;
        }
        i = i + 1;
    }
    assert(v@ =~= w@);
    true
}

fn key_from_name(name: &Vec<char>) -> (r: Option<Key>)
    ensures
        r == parsed_key(name@),
{
    if chars_are(name, "Space") { Some(Key::Space) }
    else if chars_are(name, "E") { Some(Key::E) }
    else if chars_are(name, "Q") { Some(Key::Q) }
    else if chars_are(name, "Z") { Some(Key::Z) }
    else if chars_are(name, "X") { Some(Key::X) }
    else if chars_are(name, "S") { Some(Key::S) }
    else if chars_are(name, "O") { Some(Key::O) }
    else if chars_are(name, "A") { Some(Key::A) }
    else if chars_are(name, "W") { Some(Key::W) }
    else if chars_are(name, "D") { Some(Key::D) }
    else { None }
}

fn button_from_name(name: &Vec<char>) -> (r: Option<PointerButton>)
    ensures
        r == parsed_button(name@),
{
    if chars_are(name, "Primary") { Some(PointerButton::Primary) }
    else if chars_are(name, "Secondary") { Some(PointerButton::Secondary) }
    else if chars_are(name, "Middle") { Some(PointerButton::Middle) }
    else { None }
}

impl KeyBindings {
    /// Reads a saved binding, as [`parse_binding_spec`] states.
    pub fn parse_binding(binding_str: &str, default: InputBinding) -> (r: InputBinding)
        ensures
            r == parse_binding_spec(binding_str@, default),
    {
        let s = chars_of(binding_str);
        let key_prefix = chars_of("Key:");
        let mouse_prefix = chars_of("Mouse:");
        proof {
            reveal_strlit("Key:");
            reveal_strlit("Mouse:");
        }
        assert(s@.skip(0) =~= s@);
        if vec_starts_with(&s, 0, &key_prefix) {
            let rest = strip_all_exec(&s, &key_prefix);
            match key_from_name(&rest) {
                Some(k) => InputBinding::Key(k),
                None => default,
            }
        } else if vec_starts_with(&s, 0, &mouse_prefix) {
            let rest = strip_all_exec(&s, &mouse_prefix);
            match button_from_name(&rest) {
                Some(b) => InputBinding::MouseButton(b),
                None => default,
            }
        } else {
            default
        }
    }

    /// How a binding is saved: `Key:<name>` or `Mouse:<name>`.
    pub fn binding_to_string(binding: &InputBinding) -> (r: String)
        ensures
            r@ == binding_text(*binding),
    {
        let (prefix, name) = match binding {
            InputBinding::Key(k) => ("Key:", key_name(*k)),
            InputBinding::MouseButton(b) => ("Mouse:", button_name(*b)),
        };
        let mut out = chars_of(prefix);
        let tail = chars_of(name);
        let ghost head = out@;
        let mut i: usize = 0;
        while i < tail.len()
            invariant
                0 <= i <= tail@.len(),
                out@ == head + tail@.take(i as int),
            decreases tail.len() - i,
        {
            out.push(tail[i]);
            assert(tail@.take(i + 1) =~= tail@.take(i as int).push(tail@[i as int]));
            i = i + 1;
        }
        assert(tail@.take(tail@.len() as int) =~= tail@);
        string_from_chars(&out)
    }

    /// The saved form of every binding, in the order pan, place block,
    /// remove block, zoom in, zoom out, save, open.
    pub fn to_serializable(&self) -> (r: Vec<String>)
        ensures
            r@.len() == 7,
            r@[0]@ == binding_text(self.pan),
            r@[1]@ == binding_text(self.place_block),
            r@[2]@ == binding_text(self.remove_block),
            r@[3]@ == binding_text(self.zoom_in),
            r@[4]@ == binding_text(self.zoom_out),
            r@[5]@ == binding_text(self.save),
            r@[6]@ == binding_text(self.open),
    {
        let mut out: Vec<String> = Vec::new();
        out.push(Self::binding_to_string(&self.pan));
        out.push(Self::binding_to_string(&self.place_block));
        out.push(Self::binding_to_string(&self.remove_block));
        out.push(Self::binding_to_string(&self.zoom_in));
        out.push(Self::binding_to_string(&self.zoom_out));
        out.push(Self::binding_to_string(&self.save));
        out.push(Self::binding_to_string(&self.open));
        out
    }

    /// The bindings read back from their saved forms (in the order of
    /// [`KeyBindings::to_serializable`]); each one that cannot be read keeps
    /// its default.
    pub fn from_serializable(saved: &Vec<String>) -> (r: Self)
        ensures
            saved@.len() == 7 ==> r == (KeyBindings {
                pan: parse_binding_spec(saved@[0]@, default_bindings().pan),
                place_block: parse_binding_spec(saved@[1]@, default_bindings().place_block),
                remove_block: parse_binding_spec(saved@[2]@, default_bindings().remove_block),
                zoom_in: parse_binding_spec(saved@[3]@, default_bindings().zoom_in),
                zoom_out: parse_binding_spec(saved@[4]@, default_bindings().zoom_out),
                save: parse_binding_spec(saved@[5]@, default_bindings().save),
                open: parse_binding_spec(saved@[6]@, default_bindings().open),
            }),
            saved@.len() != 7 ==> r == default_bindings(),
    {
        let d = KeyBindings::default();
        if saved.len() != 7 {
            return d;
        }
        KeyBindings {
            pan: Self::parse_binding(saved[0].as_str(), d.pan),
            place_block: Self::parse_binding(saved[1].as_str(), d.place_block),
            remove_block: Self::parse_binding(saved[2].as_str(), d.remove_block),
            zoom_in: Self::parse_binding(saved[3].as_str(), d.zoom_in),
            zoom_out: Self::parse_binding(saved[4].as_str(), d.zoom_out),
            save: Self::parse_binding(saved[5].as_str(), d.save),
            open: Self::parse_binding(saved[6].as_str(), d.open),
        }
    }

    /// Whether an action is bound to the keyboard or the mouse.
    pub fn get_input_mode(&self, binding_type: BindingType) -> (r: InputMode)
        ensures
            r == (match binding_of(*self, binding_type) {
                InputBinding::Key(_) => InputMode::Keyboard,
                InputBinding::MouseButton(_) => InputMode::Mouse,
            }),
    {
        match self.binding(binding_type) {
            InputBinding::Key(_) => InputMode::Keyboard,
            InputBinding::MouseButton(_) => InputMode::Mouse,
        }
    }

    /// The binding of one action.
    pub fn binding(&self, binding_type: BindingType) -> (r: InputBinding)
        ensures
            r == binding_of(*self, binding_type),
    {
        match binding_type {
            BindingType::Pan => self.pan,
            BindingType::PlaceBlock => self.place_block,
            BindingType::RemoveBlock => self.remove_block,
            BindingType::ZoomIn => self.zoom_in,
            BindingType::ZoomOut => self.zoom_out,
            BindingType::Save => self.save,
            BindingType::Open => self.open,
        }
    }

    /// The key an action is bound to, if it is bound to a key.
    pub fn get_current_key(&self, binding_type: BindingType) -> (r: Option<Key>)
        ensures
            r == (match binding_of(*self, binding_type) {
                InputBinding::Key(k) => Some(k),
                InputBinding::MouseButton(_) => None,
            }),
    {
        match self.binding(binding_type) {
            InputBinding::Key(k) => Some(k),
            InputBinding::MouseButton(_) => None,
        }
    }

    /// The mouse button an action is bound to, if it is bound to one.
    pub fn get_current_button(&self, binding_type: BindingType) -> (r: Option<PointerButton>)
        ensures
            r == (match binding_of(*self, binding_type) {
                InputBinding::MouseButton(b) => Some(b),
                InputBinding::Key(_) => None,
            }),
    {
        match self.binding(binding_type) {
            InputBinding::MouseButton(b) => Some(b),
            InputBinding::Key(_) => None,
        }
    }

    /// Rebinds one action, leaving the others as they were.
    pub fn update_binding(&mut self, binding_type: BindingType, new_binding: InputBinding)
        ensures
            binding_of(*final(self), binding_type) == new_binding,
            forall|t: BindingType| t != binding_type ==> binding_of(*final(self), t) == binding_of(*old(self), t),
    {
        match binding_type {
            BindingType::Pan => self.pan = new_binding,
            BindingType::PlaceBlock => self.place_block = new_binding,
            BindingType::RemoveBlock => self.remove_block = new_binding,
            BindingType::ZoomIn => self.zoom_in = new_binding,
            BindingType::ZoomOut => self.zoom_out = new_binding,
            BindingType::Save => self.save = new_binding,
            BindingType::Open => self.open = new_binding,
        }
    }

    /// The keys offered for binding: space and the letters.
    pub fn get_all_available_keys() -> (r: Vec<Key>)
        ensures
            r@ == seq![Key::Space, Key::A, Key::B, Key::C, Key::D, Key::E, Key::F, Key::G, Key::H, Key::I,
                Key::J, Key::K, Key::L, Key::M, Key::N, Key::O, Key::P, Key::Q, Key::R, Key::S, Key::T, Key::U,
                Key::V, Key::W, Key::X, Key::Y, Key::Z],
    {
        let r = vec![Key::Space, Key::A, Key::B, Key::C, Key::D, Key::E, Key::F, Key::G, Key::H, Key::I,
            Key::J, Key::K, Key::L, Key::M, Key::N, Key::O, Key::P, Key::Q, Key::R, Key::S, Key::T, Key::U,
            Key::V, Key::W, Key::X, Key::Y, Key::Z];
        r
    }

    /// The mouse buttons offered for binding.
    pub fn get_all_available_mouse_buttons() -> (r: Vec<PointerButton>)
        ensures
            r@ == seq![PointerButton::Primary, PointerButton::Secondary, PointerButton::Middle],
    {
        vec![PointerButton::Primary, PointerButton::Secondary, PointerButton::Middle]
    }
}

} // verus!
