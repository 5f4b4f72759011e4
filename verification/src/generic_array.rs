use vstd::prelude::*;
use crate::error::CtbError;

verus! {

/// The 16 bytes of a UUID, in the order the UUID is written.
#[derive(Clone, Copy)]
pub struct UuidBytes(pub [u8; 16]);

/// `bytes` as a fixed-size value of `len` bytes: the same bytes where the
/// length matches, an error otherwise.
pub fn vec_to_generic_array(vec: Vec<u8>, len: usize) -> (r: Result<Vec<u8>, CtbError>)
    ensures
        vec@.len() == len ==> (r matches Ok(a) && a@ == vec@),
        vec@.len() != len ==> r == Err::<Vec<u8>, CtbError>(CtbError::SizeMismatch),
{
    if vec.len() != len {
        return Err(CtbError::SizeMismatch);
    }
    let mut arr: Vec<u8> = vec![0u8; len];
    let mut i: usize = 0;
    while i < len
        invariant
            i <= len,
            vec@.len() == len,
            arr@.len() == len,
            forall|j: int| 0 <= j < i ==> arr@[j] == vec@[j],
        decreases len - i,
    {
        arr.set(i, vec[i]);
        i = i + 1;
    }
    assert(arr@ =~= vec@);
    Ok(arr)
}

/// Fixed-size byte values made from a vector whose length must match.
pub trait GenericArrayFrom: Sized {
    fn try_from_vec(vec: Vec<u8>, len: usize) -> (r: Result<Self, CtbError>);
}

impl GenericArrayFrom for Vec<u8> {
    fn try_from_vec(vec: Vec<u8>, len: usize) -> (r: Result<Self, CtbError>)
        ensures
            vec@.len() == len ==> (r matches Ok(a) && a@ == vec@),
            vec@.len() != len ==> r == Err::<Vec<u8>, CtbError>(CtbError::SizeMismatch),
    {
        vec_to_generic_array(vec, len)
    }
}

/// What `to_generic_array` gives for a UUID: its bytes first, zeros after.
pub open spec fn uuid_array(uuid: [u8; 16], len: nat) -> Seq<u8> {
    Seq::new(len, |i: int| if i < 16 { uuid@[i] } else { 0u8 })
}

/// Values that fill a fixed-size byte array of a given length.
pub trait ToGenericArray: Sized {
    /// Whether the value fits an array of `len` bytes.
    spec fn fits(&self, len: nat) -> bool;

    /// The array of `len` bytes the value becomes.
    spec fn array_of(&self, len: nat) -> Seq<u8>;

    fn to_generic_array(self, len: usize) -> (r: Vec<u8>)
        requires
            self.fits(len as nat),
        ensures
            r@ == self.array_of(len as nat),
            r@.len() == len,
    ;
}

impl ToGenericArray for UuidBytes {
    /// An array must hold at least the 16 bytes of the UUID.
    open spec fn fits(&self, len: nat) -> bool {
        len >= 16
    }

    open spec fn array_of(&self, len: nat) -> Seq<u8> {
        uuid_array(self.0, len)
    }

    fn to_generic_array(self, len: usize) -> (r: Vec<u8>) {
        let mut arr: Vec<u8> = vec![0u8; len];
        let mut i: usize = 0;
        while i < 16
            invariant
                i <= 16,
                len >= 16,
                arr@.len() == len,
                forall|j: int| 0 <= j < len ==> #[trigger] arr@[j] == (if j < i { self.0@[j] } else { 0u8 }),
            decreases 16 - i,
        {
            arr.set(i, self.0[i]);
            i = i + 1;
        }
        assert(arr@ =~= uuid_array(self.0, len as nat));
        arr
    }
}

impl ToGenericArray for Vec<u8> {
    /// A byte vector fills an array of its own length.
    open spec fn fits(&self, len: nat) -> bool {
        self@.len() == len
    }

    open spec fn array_of(&self, len: nat) -> Seq<u8> {
        self@
    }

    fn to_generic_array(self, len: usize) -> (r: Vec<u8>) {
        self
    }
}

/// Values that can be copied into a fixed-size byte array of a given length.
pub trait AsArray {
    spec fn fits(&self, len: nat) -> bool;

    spec fn array_of(&self, len: nat) -> Seq<u8>;

    fn as_array(&self, len: usize) -> (r: Vec<u8>)
        requires
            self.fits(len as nat),
        ensures
            r@ == self.array_of(len as nat),
            r@.len() == len,
    ;
}

impl AsArray for UuidBytes {
    open spec fn fits(&self, len: nat) -> bool {
        len >= 16
    }

    open spec fn array_of(&self, len: nat) -> Seq<u8> {
        uuid_array(self.0, len)
    }

    fn as_array(&self, len: usize) -> (r: Vec<u8>) {
        let copy = UuidBytes(self.0);
        copy.to_generic_array(len)
    }
}

impl AsArray for Vec<u8> {
    open spec fn fits(&self, len: nat) -> bool {
        self@.len() == len
    }

    open spec fn array_of(&self, len: nat) -> Seq<u8> {
        self@
    }

    fn as_array(&self, len: usize) -> (r: Vec<u8>) {
        let r = self.clone();
        assert(r@ =~= self@);
        r
    }
}

} // verus!
