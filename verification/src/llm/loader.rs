//! The decisions of model loading: which format a file is in, how a GGML
//! header is read, and how each stored element type is handled.  Reading
//! files and converting floating-point weights is left to the caller; here a
//! stream is the byte sequence it yields and a read position in it.
use vstd::prelude::*;
use vstd::utf8::{valid_utf8, decode_utf8, encode_utf8};
use crate::llm::error::LLMError;
use crate::llm::model::ModelType;
use crate::llm::quantization::QuantizationType;
use crate::strmap::StrMap;
use crate::text::str_eq;

verus! {

/// Loads a model from a path, in a given architecture and weight format.
pub struct ModelLoader {
    path: String,
    model_type: ModelType,
    quantization: QuantizationType,
}

/// File formats that loading dispatches on.
#[derive(Debug, Clone, Copy, PartialEq, Eq, Structural)]
pub enum ModelFormat {
    /// GGML or GGUF (`.gguf`, `.ggml`, `.bin`).
    Ggml,
    /// HuggingFace SafeTensors (`.safetensors`).
    SafeTensors,
    /// PyTorch pickle (`.pt`, `.pth`).
    PyTorch,
    /// Unknown extension: the format is detected from the file header.
    Detect,
}

/// How the elements of a stored tensor are encoded.
#[derive(Debug, Clone, Copy, PartialEq, Eq, Structural)]
pub enum TensorElement {
    /// IEEE half precision, two bytes.
    Half,
    /// IEEE single precision, four bytes.
    Single,
    /// bfloat16, two bytes.
    BFloat16,
}

/// What the front of a GGML/GGUF stream says.
pub struct GgmlHeader {
    /// The magic was `gguf` rather than `ggml`.
    pub is_gguf: bool,
    /// The architecture named after the magic.
    pub model_type: ModelType,
    /// Named hyper-parameters found in the header.
    pub params: StrMap,
    /// Position just after the header.
    pub offset: usize,
}

/// What `String::from_utf8` says of bytes that are not UTF-8 (the text of
/// its `FromUtf8Error`).
pub uninterp spec fn utf8_error_text(bytes: Seq<u8>) -> Seq<char>;

/// `String::from_utf8`: succeeds exactly when the bytes are valid UTF-8,
/// and then the string holds the decoded characters; otherwise the error's
/// text is returned.
#[verifier::external_body]
fn string_from_utf8(bytes: Vec<u8>) -> (r: Result<String, String>)
    ensures
        match r {
            Ok(s) => valid_utf8(bytes@) && s@ == decode_utf8(bytes@),
            Err(m) => !valid_utf8(bytes@) && m@ == utf8_error_text(bytes@),
        },
{
    match String::from_utf8(bytes) {
        Ok(s) => Ok(s),
        Err(e) => Err(e.to_string()),
    }
}

/// The message of a read that hits the end of the stream early.
pub open spec fn eof_message() -> Seq<char> {
    "failed to fill whole buffer"@
}

fn eof_text() -> (r: String)
    ensures
        r@ == eof_message(),
{
    "failed to fill whole buffer".to_string()
}

/// Little-endian `u32` at position `p`.
pub open spec fn le_u32(b: Seq<u8>, p: int) -> nat {
    (b[p] + 256 * b[p + 1] + 65536 * b[p + 2] + 16777216 * b[p + 3]) as nat
}

/// The bytes of the length-prefixed string at `p`, when the stream holds
/// all of them.
pub open spec fn ggml_string_bytes(b: Seq<u8>, p: int) -> Seq<u8> {
    b.subrange(p + 4, p + 4 + le_u32(b, p))
}

/// The stream holds a whole length-prefixed string at `p`.
pub open spec fn ggml_string_complete(b: Seq<u8>, p: int) -> bool {
    p + 4 <= b.len() && p + 4 + le_u32(b, p) <= b.len()
}

/// Outcome of reading a length-prefixed string at `p`: its characters and
/// the position after it, or the error.
pub open spec fn ggml_string_ok(b: Seq<u8>, p: int) -> bool {
    ggml_string_complete(b, p) && valid_utf8(ggml_string_bytes(b, p))
}

/// An error carrying exactly the given text in the given variant.
pub open spec fn is_load_error(e: LLMError, m: Seq<char>) -> bool {
    e matches LLMError::LoadError(s) && s@ == m
}

/// An I/O error carrying exactly the given text.
pub open spec fn is_io_error(e: LLMError, m: Seq<char>) -> bool {
    e matches LLMError::IoError(s) && s@ == m
}

/// The architecture a GGML header names, if known.
pub open spec fn ggml_model_type_of(name: Seq<char>) -> Option<ModelType> {
    if name == "llama"@ {
        Some(ModelType::LLaMA)
    } else if name == "gpt2"@ {
        Some(ModelType::GPT2)
    } else if name == "gptj"@ {
        Some(ModelType::GPTJ)
    } else if name == "gpt-neoxx"@ {
        Some(ModelType::GPTNeoX)
    } else {
        None
    }
}

/// The architecture a HuggingFace `model_type` names, if known.
pub open spec fn config_model_type_of(name: Seq<char>) -> Option<ModelType> {
    if name == "Llama"@ || name == "llama"@ {
        Some(ModelType::LLaMA)
    } else if name == "GPT2"@ || name == "gpt2"@ {
        Some(ModelType::GPT2)
    } else if name == "GPTJ"@ || name == "gptj"@ {
        Some(ModelType::GPTJ)
    } else if name == "GPTNeoX"@ || name == "gpt-neox"@ {
        Some(ModelType::GPTNeoX)
    } else if name == "Falcon"@ || name == "falcon"@ {
        Some(ModelType::Falcon)
    } else {
        None
    }
}

/// The format an extension selects.
pub open spec fn format_of_extension(ext: Seq<char>) -> ModelFormat {
    if ext == "gguf"@ || ext == "ggml"@ || ext == "bin"@ {
        ModelFormat::Ggml
    } else if ext == "safetensors"@ {
        ModelFormat::SafeTensors
    } else if ext == "pt"@ || ext == "pth"@ {
        ModelFormat::PyTorch
    } else {
        ModelFormat::Detect
    }
}

/// The first four bytes are the given magic.
pub open spec fn has_magic(b: Seq<u8>, m: Seq<u8>) -> bool {
    b.len() >= 4 && b.subrange(0, 4) == m
}

/// `ggml` in ASCII.
pub open spec fn ggml_magic() -> Seq<u8> {
    seq![0x67u8, 0x67u8, 0x6du8, 0x6cu8]
}

/// `gguf` in ASCII.
pub open spec fn gguf_magic() -> Seq<u8> {
    seq![0x67u8, 0x67u8, 0x75u8, 0x66u8]
}

/// The element encoding a weight format is read with, or `None` where
/// loading that format is not supported.
pub open spec fn element_of(q: QuantizationType) -> Option<TensorElement> {
    match q {
        QuantizationType::F16 => Some(TensorElement::Half),
        QuantizationType::F32 | QuantizationType::Unquantized => Some(TensorElement::Single),
        QuantizationType::BF16 => Some(TensorElement::BFloat16),
        _ => None,
    }
}

/// The block formats of GGML, refused with their own message.
pub open spec fn is_ggml_block_format(q: QuantizationType) -> bool {
    q == QuantizationType::Q8_0 || q == QuantizationType::Q4_1 || q == QuantizationType::Q4_0
}

fn has_magic_exec(b: &[u8], m0: u8, m1: u8, m2: u8, m3: u8) -> (r: bool)
    requires
        b@.len() >= 4,
    ensures
        r == (b@.subrange(0, 4) == seq![m0, m1, m2, m3]),
{
    let r = b[0] == m0 && b[1] == m1 && b[2] == m2 && b[3] == m3;
    if r {
        assert(b@.subrange(0, 4) =~= seq![m0, m1, m2, m3]);
    } else {
        assert(b@.subrange(0, 4)[0] == b@[0]);
        assert(b@.subrange(0, 4)[1] == b@[1]);
        assert(b@.subrange(0, 4)[2] == b@[2]);
        assert(b@.subrange(0, 4)[3] == b@[3]);
    }
    r
}

impl ModelLoader {
    /// The path given at construction.
    pub closed spec fn path_view(&self) -> Seq<char> {
        self.path@
    }

    /// The architecture given at construction.
    pub closed spec fn model_type_view(&self) -> ModelType {
        self.model_type
    }

    /// The weight format.
    pub closed spec fn quantization_view(&self) -> QuantizationType {
        self.quantization
    }

    /// A loader for `path`; weights are read as F16 unless set otherwise.
    pub fn new(path: String, model_type: ModelType) -> (r: Self)
        ensures
            r.path_view() == path@,
            r.model_type_view() == model_type,
            r.quantization_view() == QuantizationType::F16,
    {
        ModelLoader { path, model_type, quantization: QuantizationType::F16 }
    }

    /// The same loader reading weights in the given format.
    pub fn with_quantization(self, quantization: QuantizationType) -> (r: Self)
        ensures
            r.path_view() == self.path_view(),
            r.model_type_view() == self.model_type_view(),
            r.quantization_view() == quantization,
    {
        ModelLoader { quantization, ..self }
    }

    /// The model path.
    pub fn path(&self) -> (r: &str)
        ensures
            r@ == self.path_view(),
    {
        self.path.as_str()
    }

    /// The weight format.
    pub fn quantization(&self) -> (r: QuantizationType)
        ensures
            r == self.quantization_view(),
    {
        self.quantization
    }

    /// Reads a string stored as a little-endian `u32` byte length followed
    /// by that many UTF-8 bytes, starting at `pos`.  Returns the string and
    /// the position after it.  A stream that ends early gives an I/O error;
    /// bytes that are not UTF-8 give a load error with the decoder's text.
    pub fn read_ggml_string(&self, data: &[u8], pos: usize) -> (r: Result<(String, usize), LLMError>)
        ensures
            r is Ok <==> ggml_string_ok(data@, pos as int),
            match r {
                Ok((s, next)) => s@ == decode_utf8(ggml_string_bytes(data@, pos as int))
                    && next == pos + 4 + le_u32(data@, pos as int),
                Err(e) => if ggml_string_complete(data@, pos as int) {
                    is_load_error(e, utf8_error_text(ggml_string_bytes(data@, pos as int)))
                } else {
                    is_io_error(e, eof_message())
                },
            },
    {
        let n = data.len();
        if pos > n || n - pos < 4 {
            return Err(LLMError::IoError(eof_text()));
        }
        let len: u64 = data[pos] as u64 + 256 * (data[pos + 1] as u64) + 65536 * (data[pos + 2] as u64)
            + 16777216 * (data[pos + 3] as u64);
        assert(len == le_u32(data@, pos as int));
        let avail = n - pos - 4;
        if len > avail as u64 {
            return Err(LLMError::IoError(eof_text()));
        }
        let start = pos + 4;
        let end = start + len as usize;
        let mut buf: Vec<u8> = Vec::new();
        let mut i = start;
        while i < end
            invariant
                start <= i <= end <= data@.len(),
                buf@ == data@.subrange(start as int, i as int),
            decreases end - i,
        {
            buf.push(data[i]);
            assert(data@.subrange(start as int, i + 1) =~= data@.subrange(start as int, i as int).push(
                data@[i as int],
            ));
            i += 1;
        }
        assert(buf@ == ggml_string_bytes(data@, pos as int));
        match string_from_utf8(buf) {
            Ok(s) => Ok((s, end)),
            Err(m) => Err(LLMError::LoadError(m)),
        }
    }

    /// Reads the key/value section of a GGUF header into `params`.  The
    /// section is not interpreted: `params` is left as it is.
    pub fn load_gguf_kv(&self, data: &[u8], pos: usize, params: &mut StrMap) -> (r: Result<(), LLMError>)
        ensures
            r is Ok,
            *final(params) == *old(params),
    {
        Ok(())
    }

    /// Reads a GGML/GGUF header: the four-byte magic, then the architecture
    /// name as a length-prefixed string, then (for GGUF) the key/value
    /// section.
    pub fn parse_ggml_header(&self, data: &[u8]) -> (r: Result<GgmlHeader, LLMError>)
        ensures
            r is Ok <==> (data@.len() >= 4 && ggml_string_ok(data@, 4)
                && ggml_model_type_of(decode_utf8(ggml_string_bytes(data@, 4))) is Some),
            match r {
                Ok(h) => {
                    &&& h.is_gguf == has_magic(data@, gguf_magic())
                    &&& Some(h.model_type) == ggml_model_type_of(
                        decode_utf8(ggml_string_bytes(data@, 4)),
                    )
                    &&& h.params.wf()
                    &&& h.params@ == Map::<Seq<char>, usize>::empty()
                    &&& h.offset == 8 + le_u32(data@, 4)
                },
                Err(e) => if data@.len() < 4 {
                    is_load_error(e, eof_message())
                } else if !ggml_string_complete(data@, 4) {
                    is_io_error(e, eof_message())
                } else if !valid_utf8(ggml_string_bytes(data@, 4)) {
                    is_load_error(e, utf8_error_text(ggml_string_bytes(data@, 4)))
                } else {
                    e matches LLMError::UnsupportedModel(s) && s@ == decode_utf8(
                        ggml_string_bytes(data@, 4),
                    )
                },
            },
    {
        if data.len() < 4 {
            return Err(LLMError::LoadError(eof_text()));
        }
        let is_gguf = has_magic_exec(data, 0x67, 0x67, 0x75, 0x66);
        let (name, offset) = match self.read_ggml_string(data, 4) {
            Ok(v) => v,
            Err(e) => return Err(e),
        };
        let model_type = match ggml_model_type(name.as_str()) {
            Ok(t) => t,
            Err(e) => return Err(e),
        };
        let mut params = StrMap::new();
        match self.load_gguf_kv(data, offset, &mut params) {
            Ok(()) => {},
            Err(e) => return Err(e),
        }
        Ok(GgmlHeader { is_gguf, model_type, params, offset })
    }
}

/// The architecture a GGML header names; other names are refused with the
/// name itself.
pub fn ggml_model_type(name: &str) -> (r: Result<ModelType, LLMError>)
    ensures
        match ggml_model_type_of(name@) {
            Some(t) => r == Ok::<ModelType, LLMError>(t),
            None => r matches Err(LLMError::UnsupportedModel(s)) && s@ == name@,
        },
{
    if str_eq(name, "llama") {
        Ok(ModelType::LLaMA)
    } else if str_eq(name, "gpt2") {
        Ok(ModelType::GPT2)
    } else if str_eq(name, "gptj") {
        Ok(ModelType::GPTJ)
    } else if str_eq(name, "gpt-neoxx") {
        Ok(ModelType::GPTNeoX)
    } else {
        Err(LLMError::UnsupportedModel(name.to_string()))
    }
}

/// The format that a file extension selects.
pub fn format_for_extension(ext: &str) -> (r: ModelFormat)
    ensures
        r == format_of_extension(ext@),
{
    if str_eq(ext, "gguf") || str_eq(ext, "ggml") || str_eq(ext, "bin") {
        ModelFormat::Ggml
    } else if str_eq(ext, "safetensors") {
        ModelFormat::SafeTensors
    } else if str_eq(ext, "pt") || str_eq(ext, "pth") {
        ModelFormat::PyTorch
    } else {
        ModelFormat::Detect
    }
}

/// Format detection from the first bytes of a file: `header` holds what a
/// read of up to twelve bytes returned and `read` how many it returned.
/// Fewer than twelve is refused; a `ggml` or `gguf` magic selects GGML and
/// anything else SafeTensors.
pub fn detect_format(header: &[u8], read: usize) -> (r: Result<ModelFormat, LLMError>)
    requires
        read <= header@.len(),
    ensures
        read < 12 ==> is_load_error(r->Err_0, "File too small"@) && r is Err,
        read >= 12 ==> r is Ok && (r->Ok_0 == if has_magic(header@, ggml_magic()) || has_magic(
            header@,
            gguf_magic(),
        ) {
            ModelFormat::Ggml
        } else {
            ModelFormat::SafeTensors
        }),
{
    if read < 12 {
        return Err(LLMError::LoadError("File too small".to_string()));
    }
    if has_magic_exec(header, 0x67, 0x67, 0x6d, 0x6c) || has_magic_exec(header, 0x67, 0x67, 0x75, 0x66) {
        Ok(ModelFormat::Ggml)
    } else {
        Ok(ModelFormat::SafeTensors)
    }
}

/// How a tensor stored in format `q` is read.  The GGML block formats and
/// the integer and FP8 formats are not supported for loading.
pub fn tensor_element(q: QuantizationType) -> (r: Result<TensorElement, LLMError>)
    ensures
        match element_of(q) {
            Some(t) => r == Ok::<TensorElement, LLMError>(t),
            None => r matches Err(LLMError::QuantizationError(m)) && m@ == if is_ggml_block_format(q) {
                "Quantized loading not implemented"@
            } else {
                "Quantized loading not implemented for this type"@
            },
        },
{
    match q {
        QuantizationType::F16 => Ok(TensorElement::Half),
        QuantizationType::Q8_0 | QuantizationType::Q4_1 | QuantizationType::Q4_0 => Err(
            LLMError::QuantizationError("Quantized loading not implemented".to_string()),
        ),
        QuantizationType::F32 | QuantizationType::Unquantized => Ok(TensorElement::Single),
        QuantizationType::BF16 => Ok(TensorElement::BFloat16),
        _ => Err(LLMError::QuantizationError("Quantized loading not implemented for this type".to_string())),
    }
}

/// The architecture that a HuggingFace configuration's `model_type` entry
/// names; `None` when the entry is missing or unknown.
pub fn infer_model_type(model_type: Option<&str>) -> (r: Option<ModelType>)
    ensures
        r == match model_type {
            Some(s) => config_model_type_of(s@),
            None => None::<ModelType>,
        },
{
    let name = match model_type {
        Some(s) => s,
        None => return None,
    };
    if str_eq(name, "Llama") || str_eq(name, "llama") {
        Some(ModelType::LLaMA)
    } else if str_eq(name, "GPT2") || str_eq(name, "gpt2") {
        Some(ModelType::GPT2)
    } else if str_eq(name, "GPTJ") || str_eq(name, "gptj") {
        Some(ModelType::GPTJ)
    } else if str_eq(name, "GPTNeoX") || str_eq(name, "gpt-neox") {
        Some(ModelType::GPTNeoX)
    } else if str_eq(name, "Falcon") || str_eq(name, "falcon") {
        Some(ModelType::Falcon)
    } else {
        None
    }
}

/// What `serde_json::from_str` makes of a HuggingFace config text, read at
/// its `model_type` entry: the entry's string when the document has one
/// (`get("model_type")` then `as_str`), `None` otherwise; when the text is
/// not JSON, the parser's error message.
pub uninterp spec fn config_model_type_field(text: Seq<char>) -> Result<Option<Seq<char>>, Seq<char>>;

/// `serde_json::from_str` into a `serde_json::Value`, then its
/// `model_type` entry as a string.  The result is claimed to be what the
/// name `config_model_type_field` gives for the text; nothing more is
/// stated.
#[verifier::external_body]
fn parse_config_model_type(content: &str) -> (r: Result<Option<String>, String>)
    ensures
        match config_model_type_field(content@) {
            Ok(Some(n)) => r matches Ok(Some(s)) && s@ == n,
            Ok(None) => r matches Ok(None),
            Err(m) => r matches Err(e) && e@ == m,
        },
{
    let v: serde_json::Value = serde_json::from_str(content).map_err(|e| e.to_string())?;
    Ok(v.get("model_type").and_then(|t| t.as_str()).map(|t| t.to_string()))
}

/// The architecture that the text of a HuggingFace configuration names in
/// its `model_type` entry (see `infer_model_type`); a load error with the
/// parser's message when the text is not JSON.
pub fn infer_model_type_of_config(content: &str) -> (r: Result<Option<ModelType>, LLMError>)
    ensures
        match config_model_type_field(content@) {
            Ok(Some(n)) => r == Ok::<Option<ModelType>, LLMError>(config_model_type_of(n)),
            Ok(None) => r == Ok::<Option<ModelType>, LLMError>(None),
            Err(m) => r matches Err(e) && is_load_error(e, m),
        },
{
    match parse_config_model_type(content) {
        Ok(name) => {
            let t = match &name {
                Some(n) => infer_model_type(Some(n.as_str())),
                None => infer_model_type(None),
            };
            Ok(t)
        },
        Err(e) => Err(LLMError::LoadError(e)),
    }
}

/// `n` as four little-endian bytes.
pub open spec fn u32_le(n: u32) -> Seq<u8> {
    seq![(n & 0xff) as u8, ((n >> 8u32) & 0xff) as u8, ((n >> 16u32) & 0xff) as u8, ((n >> 24u32) & 0xff) as u8]
}

/// A string stored the GGML way: its UTF-8 length in four little-endian
/// bytes, then its UTF-8 bytes.
pub open spec fn ggml_string_frame(s: Seq<char>) -> Seq<u8> {
    u32_le(encode_utf8(s).len() as u32) + encode_utf8(s)
}

proof fn lemma_u32_le(n: u32)
    ensures
        le_u32(u32_le(n), 0) == n,
{
    let b0 = (n & 0xff) as u8;
    let b1 = ((n >> 8u32) & 0xff) as u8;
    let b2 = ((n >> 16u32) & 0xff) as u8;
    let b3 = ((n >> 24u32) & 0xff) as u8;
    assert(b0 as int + 256 * (b1 as int) + 65536 * (b2 as int) + 16777216 * (b3 as int) == n as int)
        by (bit_vector)
        requires
            b0 == (n & 0xff) as u8,
            b1 == ((n >> 8u32) & 0xff) as u8,
            b2 == ((n >> 16u32) & 0xff) as u8,
            b3 == ((n >> 24u32) & 0xff) as u8,
    ;
}

/// Reading a stored string gives it back, with the position just after
/// it, whatever comes before and after it in the stream.
pub proof fn lemma_ggml_string_round_trip(s: Seq<char>, before: Seq<u8>, after: Seq<u8>)
    requires
        encode_utf8(s).len() <= u32::MAX,
    ensures
        ggml_string_ok(before + ggml_string_frame(s) + after, before.len() as int),
        decode_utf8(ggml_string_bytes(before + ggml_string_frame(s) + after, before.len() as int)) == s,
        before.len() + 4 + le_u32(before + ggml_string_frame(s) + after, before.len() as int)
            == before.len() + ggml_string_frame(s).len(),
{
    let e = encode_utf8(s);
    let n = e.len() as u32;
    let b = before + ggml_string_frame(s) + after;
    let p = before.len() as int;
    lemma_u32_le(n);
    let h = u32_le(n);
    assert(b[p] == h[0] && b[p + 1] == h[1] && b[p + 2] == h[2] && b[p + 3] == h[3]);
    assert(le_u32(b, p) == le_u32(h, 0));
    assert(ggml_string_bytes(b, p) =~= e);
    vstd::utf8::encode_utf8_valid_utf8(s);
    vstd::utf8::encode_utf8_decode_utf8(s);
}

/// The architecture name of a GGML header selects its model type: `llama`
/// LLaMA, `gpt2` GPT-2, `gptj` GPT-J and `gpt-neoxx` GPT-NeoX; every other
/// name is refused, and none selects Falcon.
pub proof fn lemma_ggml_names(name: Seq<char>)
    ensures
        (ggml_model_type_of(name) == Some(ModelType::LLaMA)) <==> name == "llama"@,
        (ggml_model_type_of(name) == Some(ModelType::GPT2)) <==> name == "gpt2"@,
        (ggml_model_type_of(name) == Some(ModelType::GPTJ)) <==> name == "gptj"@,
        (ggml_model_type_of(name) == Some(ModelType::GPTNeoX)) <==> name == "gpt-neoxx"@,
        ggml_model_type_of(name) != Some(ModelType::Falcon),
        (ggml_model_type_of(name) is None) <==> !(name == "llama"@ || name == "gpt2"@ || name == "gptj"@
            || name == "gpt-neoxx"@),
{
    reveal_strlit("llama");
    reveal_strlit("gpt2");
    reveal_strlit("gptj");
    reveal_strlit("gpt-neoxx");
    assert("llama"@ != "gpt2"@) by { assert("llama"@.len() != "gpt2"@.len()); }
    assert("llama"@ != "gptj"@) by { assert("llama"@.len() != "gptj"@.len()); }
    assert("llama"@ != "gpt-neoxx"@) by { assert("llama"@.len() != "gpt-neoxx"@.len()); }
    assert("gpt2"@ != "gptj"@) by { assert("gpt2"@[3] != "gptj"@[3]); }
    assert("gpt2"@ != "gpt-neoxx"@) by { assert("gpt2"@.len() != "gpt-neoxx"@.len()); }
    assert("gptj"@ != "gpt-neoxx"@) by { assert("gptj"@.len() != "gpt-neoxx"@.len()); }
}

} // verus!
