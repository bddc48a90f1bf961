//! The typed scalar/vector values a stored record maps its field names to.

use vstd::prelude::*;

verus! {

/// Mathematical model of one field value.
pub enum MetaV {
    /// String content.
    Text(Seq<char>),
    /// Binary content.
    Binary(Seq<u8>),
    /// Vector of strings.
    TextVec(Seq<Seq<char>>),
    /// A number.
    Int(int),
}

impl MetaV {
    /// Every model that an in-range executable value can take.
    pub open spec fn wf(self) -> bool {
        self matches MetaV::Int(i) ==> i32::MIN <= i <= i32::MAX
    }
}

/// One field value held by a stored record.
pub enum Meta {
    /// String content.
    Text(String),
    /// Binary content.
    Binary(Vec<u8>),
    /// Vector of strings.
    TextVec(Vec<String>),
    /// A number.
    Int(i32),
}

impl View for Meta {
    type V = MetaV;

    open spec fn view(&self) -> MetaV {
        match self {
            Meta::Text(s) => MetaV::Text(s@),
            Meta::Binary(b) => MetaV::Binary(b@),
            Meta::TextVec(v) => MetaV::TextVec(v.deep_view()),
            Meta::Int(i) => MetaV::Int(*i as int),
        }
    }
}

impl Meta {
    /// Get a reference to the text if possible.
    ///
    /// Returns None if this is not a Text.
    pub fn text_ref(&self) -> (r: Option<&String>)
        ensures
            match r {
                Some(s) => self@ matches MetaV::Text(t) && s@ == t,
                None => !(self@ is Text),
            },
    {
        match self {
            Meta::Text(text) => Some(text),
            _ => None,
        }
    }

    /// Get a mutable reference to the text if possible.
    ///
    /// Returns None if this is not a Text.
    pub fn text_mut(&mut self) -> (r: Option<&mut String>)
        ensures
            match r {
                Some(s) => old(self)@ matches MetaV::Text(t) && s@ == t && final(self)@
                    == MetaV::Text(final(s)@),
                None => !(old(self)@ is Text) && final(self)@ == old(self)@,
            },
    {
        match self {
            Meta::Text(text) => Some(text),
            _ => None,
        }
    }

    /// Get a reference to the binary data if possible.
    ///
    /// Returns None if this is not Binary.
    pub fn binary_ref(&self) -> (r: Option<&Vec<u8>>)
        ensures
            match r {
                Some(b) => self@ matches MetaV::Binary(t) && b@ == t,
                None => !(self@ is Binary),
            },
    {
        match self {
            Meta::Binary(bin) => Some(bin),
            _ => None,
        }
    }

    /// Get a mutable reference to the binary data if possible.
    ///
    /// Returns None if this is not Binary.
    pub fn binary_mut(&mut self) -> (r: Option<&mut Vec<u8>>)
        ensures
            match r {
                Some(b) => old(self)@ matches MetaV::Binary(t) && b@ == t && final(self)@
                    == MetaV::Binary(final(b)@),
                None => !(old(self)@ is Binary) && final(self)@ == old(self)@,
            },
    {
        match self {
            Meta::Binary(bin) => Some(bin),
            _ => None,
        }
    }

    /// Get a reference to the text vector if possible.
    ///
    /// Returns None if this is not a Text Vector.
    pub fn textvec_ref(&self) -> (r: Option<&Vec<String>>)
        ensures
            match r {
                Some(v) => self@ matches MetaV::TextVec(t) && v.deep_view() == t,
                None => !(self@ is TextVec),
            },
    {
        match self {
            Meta::TextVec(vec) => Some(vec),
            _ => None,
        }
    }

    /// Get a mutable reference to the text vector if possible.
    ///
    /// Returns None if this is not a Text Vector.
    pub fn textvec_mut(&mut self) -> (r: Option<&mut Vec<String>>)
        ensures
            match r {
                Some(v) => old(self)@ matches MetaV::TextVec(t) && v.deep_view()
                    == t && final(self)@ == MetaV::TextVec(
                    final(v).deep_view(),
                ),
                None => !(old(self)@ is TextVec) && final(self)@ == old(self)@,
            },
    {
        match self {
            Meta::TextVec(vec) => Some(vec),
            _ => None,
        }
    }

    /// Get the i32 integer if possible.
    ///
    /// Returns None if this is not an Integer.
    pub fn int_val(&self) -> (r: Option<i32>)
        ensures
            match r {
                Some(i) => self@ == MetaV::Int(i as int),
                None => !(self@ is Int),
            },
    {
        match self {
            Meta::Int(i) => Some(*i),
            _ => None,
        }
    }

    /// Get a mutable i32 reference integer if possible.
    ///
    /// Returns None if this is not an Integer.
    pub fn int_mut(&mut self) -> (r: Option<&mut i32>)
        ensures
            match r {
                Some(i) => old(self)@ == MetaV::Int(*i as int) && final(self)@ == MetaV::Int(
                    *final(i) as int,
                ),
                None => !(old(self)@ is Int) && final(self)@ == old(self)@,
            },
    {
        match self {
            Meta::Int(i) => Some(i),
            _ => None,
        }
    }

    /// Copy this value; the copy models the same field value.
    pub fn dup(&self) -> (r: Meta)
        ensures
            r@ == self@,
    {
        match self {
            Meta::Text(s) => Meta::Text(s.clone()),
            Meta::Binary(b) => {
                let mut c: Vec<u8> = Vec::new();
                let mut i: usize = 0;
                while i < b.len()
                    invariant
                        i <= b.len(),
                        c@ == b@.subrange(0, i as int),
                    decreases b.len() - i,
                {
                    c.push(b[i]);
                    i = i + 1;
                    proof {
                        assert(c@ =~= b@.subrange(0, i as int));
                    }
                }
                proof {
                    assert(c@ =~= b@);
                }
                Meta::Binary(c)
            },
            Meta::TextVec(v) => {
                let mut c: Vec<String> = Vec::new();
                let mut i: usize = 0;
                while i < v.len()
                    invariant
                        i <= v.len(),
                        c@.len() == i,
                        forall|j: int| 0 <= j < i ==> c@[j]@ == v@[j]@,
                    decreases v.len() - i,
                {
                    let x = v[i].clone();
                    c.push(x);
                    i = i + 1;
                }
                proof {
                    assert(c.deep_view() =~~= v.deep_view());
                }
                Meta::TextVec(c)
            },
            Meta::Int(i) => Meta::Int(*i),
        }
    }
}

} // verus!
