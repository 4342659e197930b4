//! How reading a protected document can fail.
use crate::text;
use crate::text::append_decimal;
use vstd::prelude::*;
use vstd::string::*;

verus! {

/// A failure to decrypt a document.
#[derive(Debug)]
pub enum CryptoError {
    /// The section does not start with a DISTRIBUTE_DOC_DATA record.
    NoDistributeData,
    /// The payload has the wrong size.
    InvalidPayloadSize(usize),
    /// The AES key could not be extracted.
    KeyExtractionFailed(String),
    /// Decryption failed.
    DecryptionFailed(String),
    /// A record could not be parsed.
    RecordError(String),
    /// Decompression failed.
    DecompressError(String),
    /// The password does not match: what was decrypted is not valid data.
    WrongPassword,
    /// The encryption scheme is not supported.
    UnsupportedScheme(String),
}

/// What a [`CryptoError`] says.
pub enum Failure {
    NoDistributeData,
    InvalidPayloadSize(nat),
    KeyExtractionFailed(Seq<char>),
    DecryptionFailed(Seq<char>),
    RecordError(Seq<char>),
    DecompressError(Seq<char>),
    WrongPassword,
    UnsupportedScheme(Seq<char>),
}

impl View for CryptoError {
    type V = Failure;

    open spec fn view(&self) -> Failure {
        match self {
            CryptoError::NoDistributeData => Failure::NoDistributeData,
            CryptoError::InvalidPayloadSize(size) => Failure::InvalidPayloadSize(*size as nat),
            CryptoError::KeyExtractionFailed(e) => Failure::KeyExtractionFailed(e@),
            CryptoError::DecryptionFailed(e) => Failure::DecryptionFailed(e@),
            CryptoError::RecordError(e) => Failure::RecordError(e@),
            CryptoError::DecompressError(e) => Failure::DecompressError(e@),
            CryptoError::WrongPassword => Failure::WrongPassword,
            CryptoError::UnsupportedScheme(s) => Failure::UnsupportedScheme(s@),
        }
    }
}

/// What the result of a decryption says.
pub open spec fn outcome(r: Result<Vec<u8>, CryptoError>) -> Result<Seq<u8>, Failure> {
    match r {
        Ok(bytes) => Ok(bytes@),
        Err(e) => Err(e@),
    }
}

/// The text of a failure.
pub open spec fn failure_text(f: Failure) -> Seq<char> {
    match f {
        Failure::NoDistributeData => "DISTRIBUTE_DOC_DATA 레코드 없음"@,
        Failure::InvalidPayloadSize(size) => "DISTRIBUTE_DOC_DATA 크기 오류: "@ + text::decimal(size)
            + "바이트 (필요: 256)"@,
        Failure::KeyExtractionFailed(e) => "AES 키 추출 실패: "@ + e,
        Failure::DecryptionFailed(e) => "복호화 실패: "@ + e,
        Failure::RecordError(e) => "레코드 파싱 실패: "@ + e,
        Failure::DecompressError(e) => "압축 해제 실패: "@ + e,
        Failure::WrongPassword => "비밀번호가 일치하지 않습니다"@,
        Failure::UnsupportedScheme(s) => "지원하지 않는 암호화 방식: "@ + s,
    }
}

/// What an error says is its kind with what it holds.
pub proof fn law_failure_of_error(e: CryptoError)
    ensures
        e is NoDistributeData <==> e@ is NoDistributeData,
        e is InvalidPayloadSize <==> e@ is InvalidPayloadSize,
        e is KeyExtractionFailed <==> e@ is KeyExtractionFailed,
        e is DecryptionFailed <==> e@ is DecryptionFailed,
        e is RecordError <==> e@ is RecordError,
        e is DecompressError <==> e@ is DecompressError,
        e is WrongPassword <==> e@ is WrongPassword,
        e is UnsupportedScheme <==> e@ is UnsupportedScheme,
        e matches CryptoError::InvalidPayloadSize(size) ==> e@ == Failure::InvalidPayloadSize(
            size as nat,
        ),
        e matches CryptoError::KeyExtractionFailed(s) ==> e@ == Failure::KeyExtractionFailed(s@),
        e matches CryptoError::DecryptionFailed(s) ==> e@ == Failure::DecryptionFailed(s@),
        e matches CryptoError::RecordError(s) ==> e@ == Failure::RecordError(s@),
        e matches CryptoError::DecompressError(s) ==> e@ == Failure::DecompressError(s@),
        e matches CryptoError::UnsupportedScheme(s) ==> e@ == Failure::UnsupportedScheme(s@),
{
}

/// What the result of a decryption says is its bytes or its error.
pub proof fn law_outcome(r: Result<Vec<u8>, CryptoError>)
    ensures
        r is Ok <==> outcome(r) is Ok,
        r is Ok ==> outcome(r)->Ok_0 == r->Ok_0@,
        r is Err ==> outcome(r)->Err_0 == r->Err_0@,
{
}

/// The texts of the failures. What a failure holds ends its text, whatever it is, and the
/// size of a payload stands in it in decimal.
pub proof fn law_failure_texts(s: Seq<char>, size: nat)
    ensures
        failure_text(Failure::NoDistributeData) == "DISTRIBUTE_DOC_DATA 레코드 없음"@,
        failure_text(Failure::InvalidPayloadSize(size)) == "DISTRIBUTE_DOC_DATA 크기 오류: "@
            + text::decimal(size) + "바이트 (필요: 256)"@,
        failure_text(Failure::KeyExtractionFailed(s)) == "AES 키 추출 실패: "@ + s,
        failure_text(Failure::DecryptionFailed(s)) == "복호화 실패: "@ + s,
        failure_text(Failure::RecordError(s)) == "레코드 파싱 실패: "@ + s,
        failure_text(Failure::DecompressError(s)) == "압축 해제 실패: "@ + s,
        failure_text(Failure::WrongPassword) == "비밀번호가 일치하지 않습니다"@,
        failure_text(Failure::UnsupportedScheme(s)) == "지원하지 않는 암호화 방식: "@ + s,
{
}

fn labelled(label: &str, detail: &str) -> (r: String)
    ensures
        r@ == label@ + detail@,
{
    let mut r: String = label.to_string();
    r.append(detail);
    r
}

impl CryptoError {
    /// The text of the error.
    pub fn message(&self) -> (r: String)
        ensures
            r@ == failure_text(self@),
    {
        match self {
            CryptoError::NoDistributeData => "DISTRIBUTE_DOC_DATA 레코드 없음".to_string(),
            CryptoError::InvalidPayloadSize(size) => {
                let mut r: String = "DISTRIBUTE_DOC_DATA 크기 오류: ".to_string();
                append_decimal(&mut r, *size as u64);
                r.append("바이트 (필요: 256)");
                r
            },
            CryptoError::KeyExtractionFailed(e) => labelled("AES 키 추출 실패: ", e.as_str()),
            CryptoError::DecryptionFailed(e) => labelled("복호화 실패: ", e.as_str()),
            CryptoError::RecordError(e) => labelled("레코드 파싱 실패: ", e.as_str()),
            CryptoError::DecompressError(e) => labelled("압축 해제 실패: ", e.as_str()),
            CryptoError::WrongPassword => "비밀번호가 일치하지 않습니다".to_string(),
            CryptoError::UnsupportedScheme(s) => labelled(
                "지원하지 않는 암호화 방식: ",
                s.as_str(),
            ),
        }
    }
}

} // verus!
