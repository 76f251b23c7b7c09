//! Bookkeeping of exported C Data Interface structs: how many are made from
//! a value, and who owns them. The structs themselves are made by a caller's
//! export function; this module decides what each one is made from.
use vstd::prelude::*;

use crate::error::ArrowWasmError;

verus! {

/// One exported pair: a schema struct and an array struct.
#[derive(Debug)]
pub struct FFIData<S, A> {
    pub array: A,
    pub schema: S,
}

impl<S, A> FFIData<S, A> {
    pub fn new(array: A, schema: S) -> (r: Self)
        ensures
            r.array == array,
            r.schema == schema,
    {
        FFIData { array, schema }
    }

    /// The array struct.
    pub fn array(&self) -> (r: &A)
        ensures
            *r == self.array,
    {
        &self.array
    }

    /// The schema struct.
    pub fn schema(&self) -> (r: &S)
        ensures
            *r == self.schema,
    {
        &self.schema
    }
}

/// Exported chunks: one schema struct shared by an array struct per chunk.
#[derive(Debug)]
pub struct FFIStream<S, A> {
    pub field: S,
    pub arrays: Vec<A>,
}

impl<S, A> FFIStream<S, A> {
    pub fn new(field: S, arrays: Vec<A>) -> (r: Self)
        ensures
            r.field == field,
            r.arrays@ == arrays@,
    {
        FFIStream { field, arrays }
    }

    /// The number of array structs.
    pub fn num_arrays(&self) -> (r: usize)
        ensures
            r == self.arrays@.len(),
    {
        self.arrays.len()
    }

    /// The shared schema struct.
    pub fn schema(&self) -> (r: &S)
        ensures
            *r == self.field,
    {
        &self.field
    }

    /// The array struct of chunk `i`.
    pub fn array(&self, i: usize) -> (r: &A)
        requires
            i < self.arrays@.len(),
        ensures
            *r == self.arrays@[i as int],
    {
        &self.arrays[i]
    }

    /// Exports every chunk with `export`, in order, under one schema struct.
    /// The chunks are only borrowed: they stay with the caller.
    pub fn from_chunks<B, F: Fn(&B) -> A>(field: S, chunks: &Vec<B>, export: F) -> (r: Self)
        requires
            forall|b: &B| #[trigger] export.requires((b,)),
        ensures
            r.field == field,
            r.arrays@.len() == chunks@.len(),
            forall|i: int|
                0 <= i < chunks@.len() ==> export.ensures((&chunks@[i],), #[trigger] r.arrays@[i]),
    {
        let mut arrays: Vec<A> = Vec::new();
        let mut i: usize = 0;
        while i < chunks.len()
            invariant
                i <= chunks@.len(),
                arrays@.len() == i,
                forall|b: &B| #[trigger] export.requires((b,)),
                forall|k: int| 0 <= k < i ==> export.ensures((&chunks@[k],), #[trigger] arrays@[k]),
            decreases chunks@.len() - i,
        {
            let a = export(&chunks[i]);
            arrays.push(a);
            i += 1;
        }
        FFIStream { field, arrays }
    }

    /// Exports every chunk with `export`, in order, under one schema struct.
    /// The chunks are handed over: `export` owns each from then on.
    pub fn from_owned_chunks<B, F: Fn(B) -> A>(field: S, chunks: Vec<B>, export: F) -> (r: Self)
        requires
            forall|b: B| #[trigger] export.requires((b,)),
        ensures
            r.field == field,
            r.arrays@.len() == chunks@.len(),
            forall|i: int|
                0 <= i < chunks@.len() ==> export.ensures((chunks@[i],), #[trigger] r.arrays@[i]),
    {
        let ghost input = chunks@;
        let n = chunks.len();
        let mut rest = chunks;
        // Taken from the back, the chunks come out reversed; taking them from
        // the back once more puts them in order.
        let mut reversed: Vec<B> = Vec::new();
        while rest.len() > 0
            invariant
                n == input.len(),
                rest@ == input.subrange(0, rest@.len() as int),
                reversed@.len() + rest@.len() == n,
                forall|k: int| 0 <= k < reversed@.len() ==> #[trigger] reversed@[k] == input[n - 1 - k],
            decreases rest@.len(),
        {
            let c = rest.pop().unwrap();
            reversed.push(c);
            assert(rest@ =~= input.subrange(0, rest@.len() as int));
        }
        let mut arrays: Vec<A> = Vec::new();
        while reversed.len() > 0
            invariant
                n == input.len(),
                reversed@.len() + arrays@.len() == n,
                forall|b: B| #[trigger] export.requires((b,)),
                forall|k: int| 0 <= k < reversed@.len() ==> #[trigger] reversed@[k] == input[n - 1 - k],
                forall|k: int| 0 <= k < arrays@.len() ==> export.ensures((input[k],), #[trigger] arrays@[k]),
            decreases reversed@.len(),
        {
            let c = reversed.pop().unwrap();
            let a = export(c);
            arrays.push(a);
        }
        FFIStream { field, arrays }
    }

    /// Releases every struct. Consuming the stream makes a second release
    /// impossible.
    pub fn drop(self) {
    }
}

/// What a pull of the C Stream Interface's `get_next` amounts to, given the
/// status code that the callback returned and whether the array it filled in
/// reports itself released.
#[derive(Debug, Clone, Copy, PartialEq, Eq, Structural)]
pub enum StreamNext {
    /// An array was delivered.
    Array,
    /// The stream is exhausted.
    End,
}

/// Decides a `get_next` pull: a nonzero status is an error that carries it; a
/// zero status with a released array ends the stream; otherwise an array came.
pub fn stream_next(status: i32, released: bool) -> (r: Result<StreamNext, ArrowWasmError>)
    ensures
        status != 0 ==> r == Err::<StreamNext, ArrowWasmError>(ArrowWasmError::StreamProtocol(status)),
        status == 0 && released ==> r == Ok::<StreamNext, ArrowWasmError>(StreamNext::End),
        status == 0 && !released ==> r == Ok::<StreamNext, ArrowWasmError>(StreamNext::Array),
{
    if status != 0 {
        Err(ArrowWasmError::StreamProtocol(status))
    } else if released {
        Ok(StreamNext::End)
    } else {
        Ok(StreamNext::Array)
    }
}

/// Decides a `get_schema` pull: a nonzero status is an error that carries it.
pub fn stream_schema(status: i32) -> (r: Result<(), ArrowWasmError>)
    ensures
        status != 0 ==> r == Err::<(), ArrowWasmError>(ArrowWasmError::StreamProtocol(status)),
        status == 0 ==> r == Ok::<(), ArrowWasmError>(()),
{
    if status != 0 {
        Err(ArrowWasmError::StreamProtocol(status))
    } else {
        Ok(())
    }
}

} // verus!
