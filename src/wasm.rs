//! Guest module bytes in the form the executor instantiates. Gas
//! instrumentation is the preprocessor's work and happens outside this
//! library; the bytes here are parsed and written back in canonical form.

use vstd::prelude::*;

verus! {

#[verifier::external_type_specification]
#[verifier::external_body]
pub struct ExModule(parity_wasm::elements::Module);

#[verifier::external_type_specification]
#[verifier::external_body]
pub struct ExWasmError(parity_wasm::elements::Error);

/// Whether bytes parse as a whole WebAssembly module.
pub uninterp spec fn wasm_parses(b: Seq<u8>) -> bool;

/// The canonical binary form of the module that bytes parse as.
pub uninterp spec fn wasm_reencoded(b: Seq<u8>) -> Seq<u8>;

/// Relies on `parity_wasm::deserialize_buffer`: parses a whole WebAssembly
/// module, failing on malformed input or trailing bytes; whether it succeeds
/// depends on the bytes alone.
#[verifier::external_body]
fn parse_module(b: &[u8]) -> (r: Result<parity_wasm::elements::Module, parity_wasm::elements::Error>)
    ensures
        r is Ok == wasm_parses(b@),
{
    parity_wasm::deserialize_buffer::<parity_wasm::elements::Module>(b)
}

/// Relies on `parity_wasm::deserialize_buffer` followed by
/// `parity_wasm::serialize`: the module that the bytes parse as, written back
/// in the binary format; the output depends on the bytes alone.
#[verifier::external_body]
fn reencode_module(b: &[u8]) -> (r: Result<Vec<u8>, parity_wasm::elements::Error>)
    ensures
        r matches Ok(v) ==> wasm_parses(b@) && v@ == wasm_reencoded(b@),
{
    parity_wasm::deserialize_buffer::<parity_wasm::elements::Module>(b).and_then(parity_wasm::serialize)
}

/// Why module bytes were refused.
#[derive(Debug, Clone, Copy, PartialEq, Eq, Structural)]
pub enum WasmError {
    /// The bytes are no well-formed module.
    Deserialize,
    /// The parsed module could not be written back.
    Serialize,
}

/// Module bytes that parsed as a WebAssembly module and were written back in
/// canonical binary form.
#[derive(Debug, Clone)]
pub struct WasmiBytes(Vec<u8>);

impl View for WasmiBytes {
    type V = Seq<u8>;

    closed spec fn view(&self) -> Seq<u8> {
        self.0@
    }
}

impl WasmiBytes {
    /// Parses the raw bytes as a module and writes it back; refuses bytes that
    /// are no module.
    pub fn new(raw_bytes: &[u8]) -> (r: Result<WasmiBytes, WasmError>)
        ensures
            match r {
                Ok(w) => wasm_parses(raw_bytes@) && w@ == wasm_reencoded(raw_bytes@),
                Err(WasmError::Deserialize) => !wasm_parses(raw_bytes@),
                Err(WasmError::Serialize) => wasm_parses(raw_bytes@),
            },
    {
        if parse_module(raw_bytes).is_err() {
            return Err(WasmError::Deserialize);
        }
        match reencode_module(raw_bytes) {
            Ok(b) => Ok(WasmiBytes(b)),
            Err(_) => Err(WasmError::Serialize),
        }
    }

    /// The module bytes.
    pub fn into_bytes(self) -> (r: Vec<u8>)
        ensures
            r@ == self@,
    {
        self.0
    }
}

} // verus!
