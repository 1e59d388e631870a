//! Presets: reusable rendering callbacks driven by a value bag.
//!
//! A [`ValueBag`] maps string keys to runtime-typed [`Value`]s. A preset's
//! callback reads the keys it declares through [`ValueBag::require`], which
//! fails loudly: a missing key is a [`PresetError::MissingParameter`] naming
//! the key, and a present key of the wrong kind is a
//! [`PresetError::TypeMismatch`] naming the key and both kinds. Unread keys
//! are ignored without error. [`SiImage::load_preset`] invokes the callback
//! exactly once, synchronously, and hands back whatever it returns.

use vstd::prelude::*;

use crate::color::Rgb;
use crate::font::SiFont;
use crate::image::SiImage;

verus! {

/// The kind tag of a [`Value`].
#[derive(Clone, Copy, PartialEq, Eq, Structural, Debug)]
pub enum ValueKind {
    Text,
    Number,
    Color,
    Image,
    Font,
}

/// A runtime-typed value a preset callback can receive.
pub enum Value {
    Text(String),
    Number(i64),
    Color(Rgb),
    Image(SiImage),
    Font(SiFont),
}

/// The kind tag of `v`.
pub open spec fn spec_kind(v: Value) -> ValueKind {
    match v {
        Value::Text(_) => ValueKind::Text,
        Value::Number(_) => ValueKind::Number,
        Value::Color(_) => ValueKind::Color,
        Value::Image(_) => ValueKind::Image,
        Value::Font(_) => ValueKind::Font,
    }
}

/// The error a preset invocation fails with: a required key that the bag
/// does not hold, or a key whose value has the wrong kind. Both are fatal
/// for that invocation; nothing is substituted.
#[derive(Debug)]
pub enum PresetError {
    MissingParameter { param: String },
    TypeMismatch { param: String, expected: ValueKind, found: ValueKind },
}

/// One key-value binding of a [`ValueBag`].
pub struct BagEntry {
    pub key: String,
    pub value: Value,
}

/// A string-keyed bag of runtime-typed values, built by the caller and read
/// by a preset's callback.
pub struct ValueBag {
    entries: Vec<BagEntry>,
}

impl View for ValueBag {
    type V = Seq<BagEntry>;

    closed spec fn view(&self) -> Seq<BagEntry> {
        self.entries@
    }
}

/// The index of the binding `key` denotes: the latest entry with that key,
/// or `None` when the bag holds none.
pub open spec fn spec_find(entries: Seq<BagEntry>, key: Seq<char>) -> Option<int>
    decreases entries.len(),
{
    if entries.len() == 0 {
        None
    } else if entries.last().key@ == key {
        Some(entries.len() - 1)
    } else {
        spec_find(entries.drop_last(), key)
    }
}

impl Value {
    /// The kind tag of this value.
    pub fn kind(&self) -> (k: ValueKind)
        ensures
            k == spec_kind(*self),
    {
        match self {
            Value::Text(_) => ValueKind::Text,
            Value::Number(_) => ValueKind::Number,
            Value::Color(_) => ValueKind::Color,
            Value::Image(_) => ValueKind::Image,
            Value::Font(_) => ValueKind::Font,
        }
    }

    /// The text inside, when this value holds text.
    pub fn as_text(&self) -> (r: Option<&String>)
        ensures
            r is Some <==> spec_kind(*self) == ValueKind::Text,
            match r {
                Some(s) => *self == Value::Text(*s),
                None => true,
            },
    {
        match self {
            Value::Text(s) => Some(s),
            _ => None,
        }
    }

    /// The number inside, when this value holds a number.
    pub fn as_number(&self) -> (r: Option<i64>)
        ensures
            r is Some <==> spec_kind(*self) == ValueKind::Number,
            match r {
                Some(n) => *self == Value::Number(n),
                None => true,
            },
    {
        match self {
            Value::Number(n) => Some(*n),
            _ => None,
        }
    }

    /// The color inside, when this value holds a color.
    pub fn as_color(&self) -> (r: Option<Rgb>)
        ensures
            r is Some <==> spec_kind(*self) == ValueKind::Color,
            match r {
                Some(c) => *self == Value::Color(c),
                None => true,
            },
    {
        match self {
            Value::Color(c) => Some(*c),
            _ => None,
        }
    }

    /// The image inside, when this value holds an image.
    pub fn as_image(&self) -> (r: Option<&SiImage>)
        ensures
            r is Some <==> spec_kind(*self) == ValueKind::Image,
            match r {
                Some(img) => *self == Value::Image(*img),
                None => true,
            },
    {
        match self {
            Value::Image(img) => Some(img),
            _ => None,
        }
    }

    /// The font inside, when this value holds a font.
    pub fn as_font(&self) -> (r: Option<&SiFont>)
        ensures
            r is Some <==> spec_kind(*self) == ValueKind::Font,
            match r {
                Some(f) => *self == Value::Font(*f),
                None => true,
            },
    {
        match self {
            Value::Font(f) => Some(f),
            _ => None,
        }
    }
}

impl ValueBag {
    /// An empty bag.
    pub fn new() -> (r: ValueBag)
        ensures
            r@ == Seq::<BagEntry>::empty(),
    {
        ValueBag { entries: Vec::new() }
    }

    /// Binds `key` to `value`; a later binding of the same key shadows an
    /// earlier one.
    pub fn insert(&mut self, key: String, value: Value)
        ensures
            final(self)@ == old(self)@.push(BagEntry { key, value }),
    {
        self.entries.push(BagEntry { key, value });
    }

    /// The number of bindings, shadowed ones included.
    pub fn len(&self) -> (r: usize)
        ensures
            r == self@.len(),
    {
        self.entries.len()
    }

    /// The value bound to `key`, or `None` when the bag holds no binding
    /// for it.
    pub fn get(&self, key: &str) -> (r: Option<&Value>)
        ensures
            match r {
                Some(v) => spec_find(self@, key@) matches Some(j) && *v == self@[j].value,
                None => spec_find(self@, key@) is None,
            },
    {
        let k: String = key.to_owned();
        let n = self.entries.len();
        proof {
            assert(self.entries@.take(n as int) =~= self.entries@);
        }
        let mut j: usize = n;
        while j > 0
            invariant
                n == self.entries@.len(),
                0 <= j <= n,
                k@ == key@,
                spec_find(self@, key@) == spec_find(self.entries@.take(j as int), key@),
            decreases j,
        {
            let e = &self.entries[j - 1];
            proof {
                assert(self.entries@.take(j as int).last() == self.entries@[j as int - 1]);
                assert(self.entries@.take(j as int).drop_last() =~= self.entries@.take(
                    j as int - 1,
                ));
            }
            if e.key == k {
                return Some(&e.value);
            }
            j = j - 1;
        }
        proof {
            assert(self.entries@.take(0) =~= Seq::<BagEntry>::empty());
        }
        None
    }

    /// The value bound to `key`, demanded to be of kind `expected`: a
    /// missing binding is a [`PresetError::MissingParameter`] naming `key`,
    /// and a binding of any other kind is a [`PresetError::TypeMismatch`]
    /// naming `key`, the expected kind and the found kind.
    pub fn require(&self, key: &str, expected: ValueKind) -> (r: Result<&Value, PresetError>)
        ensures
            match r {
                Ok(v) => spec_find(self@, key@) matches Some(j) && *v == self@[j].value
                    && spec_kind(self@[j].value) == expected,
                Err(e) => match spec_find(self@, key@) {
                    None => e matches PresetError::MissingParameter { param } && param@ == key@,
                    Some(j) => spec_kind(self@[j].value) != expected && (
                    e matches PresetError::TypeMismatch { param, expected: exp, found } && param@
                        == key@ && exp == expected && found == spec_kind(self@[j].value)),
                },
            },
    {
        match self.get(key) {
            None => Err(PresetError::MissingParameter { param: key.to_owned() }),
            Some(v) => {
                let found = v.kind();
                if found == expected {
                    Ok(v)
                } else {
                    Err(
                        PresetError::TypeMismatch { param: key.to_owned(), expected, found },
                    )
                }
            },
        }
    }
}

/// A reusable rendering function: a callback from an image and a value bag
/// to a new image, or to a [`PresetError`] when the bag fails validation.
pub struct SiPreset<F> {
    cb: F,
}

impl<F: Fn(SiImage, ValueBag) -> Result<SiImage, PresetError>> SiPreset<F> {
    /// A preset from its callback.
    pub fn new(cb: F) -> (r: SiPreset<F>)
        ensures
            r.callback() == cb,
    {
        SiPreset { cb }
    }

    /// The preset's callback.
    pub closed spec fn callback(&self) -> F {
        self.cb
    }
}

impl SiImage {
    /// Applies `preset` to this image with the bindings in `values`: the
    /// callback runs exactly once, synchronously, and whatever it returns —
    /// the new image, or the validation error it failed with — is the
    /// result.
    pub fn load_preset<F: Fn(SiImage, ValueBag) -> Result<SiImage, PresetError>>(
        self,
        preset: &SiPreset<F>,
        values: ValueBag,
    ) -> (r: Result<SiImage, PresetError>)
        requires
            call_requires(preset.callback(), (self, values)),
        ensures
            call_ensures(preset.callback(), (self, values), r),
    {
        (preset.cb)(self, values)
    }
}

} // verus!
