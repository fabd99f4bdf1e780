use vstd::prelude::*;
use crate::text::{str_eq, to_lowercase, str_to_lowercase, is_ascii_text, ascii_lowercase};

verus! {

/// The stream cipher methods known to the library.
#[derive(Debug, Clone, Copy, PartialEq, Eq, Structural)]
pub enum CipherMethod {
    NoEncryption,
    Table,
    Rc4,
    Rc4Md5,
    Rc4Md5_6,
    Aes128Cfb,
    Aes192Cfb,
    Aes256Cfb,
    Aes128Ctr,
    Aes192Ctr,
    Aes256Ctr,
    Camellia128Cfb,
    Camellia192Cfb,
    Camellia256Cfb,
    BfCfb,
    Cast5Cfb,
    DesCfb,
    IdeaCfb,
    Rc2Cfb,
    SeedCfb,
    Salsa20,
    ChaCha20,
    ChaCha20Ietf,
}

/// The canonical (lower-case) name of a stream cipher method.
pub open spec fn cipher_name(m: CipherMethod) -> Seq<char> {
    match m {
        CipherMethod::NoEncryption => "none"@,
        CipherMethod::Table => "table"@,
        CipherMethod::Rc4 => "rc4"@,
        CipherMethod::Rc4Md5 => "rc4-md5"@,
        CipherMethod::Rc4Md5_6 => "rc4-md5-6"@,
        CipherMethod::Aes128Cfb => "aes-128-cfb"@,
        CipherMethod::Aes192Cfb => "aes-192-cfb"@,
        CipherMethod::Aes256Cfb => "aes-256-cfb"@,
        CipherMethod::Aes128Ctr => "aes-128-ctr"@,
        CipherMethod::Aes192Ctr => "aes-192-ctr"@,
        CipherMethod::Aes256Ctr => "aes-256-ctr"@,
        CipherMethod::Camellia128Cfb => "camellia-128-cfb"@,
        CipherMethod::Camellia192Cfb => "camellia-192-cfb"@,
        CipherMethod::Camellia256Cfb => "camellia-256-cfb"@,
        CipherMethod::BfCfb => "bf-cfb"@,
        CipherMethod::Cast5Cfb => "cast5-cfb"@,
        CipherMethod::DesCfb => "des-cfb"@,
        CipherMethod::IdeaCfb => "idea-cfb"@,
        CipherMethod::Rc2Cfb => "rc2-cfb"@,
        CipherMethod::SeedCfb => "seed-cfb"@,
        CipherMethod::Salsa20 => "salsa20"@,
        CipherMethod::ChaCha20 => "chacha20"@,
        CipherMethod::ChaCha20Ietf => "chacha20-ietf"@,
    }
}

/// The method named `s` (already lower-cased), if any.
pub open spec fn cipher_by_name(s: Seq<char>) -> Option<CipherMethod> {
    if s == "none"@ {
        Some(CipherMethod::NoEncryption)
    } else if s == "table"@ {
        Some(CipherMethod::Table)
    } else if s == "rc4"@ {
        Some(CipherMethod::Rc4)
    } else if s == "rc4-md5"@ {
        Some(CipherMethod::Rc4Md5)
    } else if s == "rc4-md5-6"@ {
        Some(CipherMethod::Rc4Md5_6)
    } else if s == "aes-128-cfb"@ {
        Some(CipherMethod::Aes128Cfb)
    } else if s == "aes-192-cfb"@ {
        Some(CipherMethod::Aes192Cfb)
    } else if s == "aes-256-cfb"@ {
        Some(CipherMethod::Aes256Cfb)
    } else if s == "aes-128-ctr"@ {
        Some(CipherMethod::Aes128Ctr)
    } else if s == "aes-192-ctr"@ {
        Some(CipherMethod::Aes192Ctr)
    } else if s == "aes-256-ctr"@ {
        Some(CipherMethod::Aes256Ctr)
    } else if s == "camellia-128-cfb"@ {
        Some(CipherMethod::Camellia128Cfb)
    } else if s == "camellia-192-cfb"@ {
        Some(CipherMethod::Camellia192Cfb)
    } else if s == "camellia-256-cfb"@ {
        Some(CipherMethod::Camellia256Cfb)
    } else if s == "bf-cfb"@ {
        Some(CipherMethod::BfCfb)
    } else if s == "cast5-cfb"@ {
        Some(CipherMethod::Cast5Cfb)
    } else if s == "des-cfb"@ {
        Some(CipherMethod::DesCfb)
    } else if s == "idea-cfb"@ {
        Some(CipherMethod::IdeaCfb)
    } else if s == "rc2-cfb"@ {
        Some(CipherMethod::Rc2Cfb)
    } else if s == "seed-cfb"@ {
        Some(CipherMethod::SeedCfb)
    } else if s == "salsa20"@ {
        Some(CipherMethod::Salsa20)
    } else if s == "chacha20"@ {
        Some(CipherMethod::ChaCha20)
    } else if s == "chacha20-ietf"@ {
        Some(CipherMethod::ChaCha20Ietf)
    } else {
        None
    }
}

/// Key length in bytes that a method derives from the password.
pub open spec fn cipher_key_len(m: CipherMethod) -> nat {
    match m {
        CipherMethod::Aes192Cfb | CipherMethod::Aes192Ctr | CipherMethod::Camellia192Cfb => 24,
        CipherMethod::Aes256Cfb | CipherMethod::Aes256Ctr | CipherMethod::Camellia256Cfb
        | CipherMethod::Salsa20 | CipherMethod::ChaCha20 | CipherMethod::ChaCha20Ietf => 32,
        CipherMethod::DesCfb => 8,
        _ => 16,
    }
}

/// IV length in bytes of a method.
pub open spec fn cipher_iv_len(m: CipherMethod) -> nat {
    match m {
        CipherMethod::NoEncryption | CipherMethod::Table | CipherMethod::Rc4 => 0,
        CipherMethod::Rc4Md5_6 => 6,
        CipherMethod::BfCfb | CipherMethod::Cast5Cfb | CipherMethod::DesCfb | CipherMethod::IdeaCfb
        | CipherMethod::Rc2Cfb | CipherMethod::Salsa20 | CipherMethod::ChaCha20 => 8,
        CipherMethod::ChaCha20Ietf => 12,
        _ => 16,
    }
}

/// Whether the IV travels in front of the first encrypted chunk: for every method with an IV.
pub open spec fn cipher_iv_prepended(m: CipherMethod) -> bool {
    cipher_iv_len(m) > 0
}

impl CipherMethod {
    /// Looks a method up by name, ignoring case.
    pub fn from_name(name: &str) -> (r: Option<CipherMethod>)
        ensures
            r == cipher_by_name(str_to_lowercase(name@)),
            is_ascii_text(name@) ==> str_to_lowercase(name@) == ascii_lowercase(name@),
    {
        let lower = to_lowercase(name);
        let l = lower.as_str();
        if str_eq(l, "none") {
            Some(CipherMethod::NoEncryption)
        } else if str_eq(l, "table") {
            Some(CipherMethod::Table)
        } else if str_eq(l, "rc4") {
            Some(CipherMethod::Rc4)
        } else if str_eq(l, "rc4-md5") {
            Some(CipherMethod::Rc4Md5)
        } else if str_eq(l, "rc4-md5-6") {
            Some(CipherMethod::Rc4Md5_6)
        } else if str_eq(l, "aes-128-cfb") {
            Some(CipherMethod::Aes128Cfb)
        } else if str_eq(l, "aes-192-cfb") {
            Some(CipherMethod::Aes192Cfb)
        } else if str_eq(l, "aes-256-cfb") {
            Some(CipherMethod::Aes256Cfb)
        } else if str_eq(l, "aes-128-ctr") {
            Some(CipherMethod::Aes128Ctr)
        } else if str_eq(l, "aes-192-ctr") {
            Some(CipherMethod::Aes192Ctr)
        } else if str_eq(l, "aes-256-ctr") {
            Some(CipherMethod::Aes256Ctr)
        } else if str_eq(l, "camellia-128-cfb") {
            Some(CipherMethod::Camellia128Cfb)
        } else if str_eq(l, "camellia-192-cfb") {
            Some(CipherMethod::Camellia192Cfb)
        } else if str_eq(l, "camellia-256-cfb") {
            Some(CipherMethod::Camellia256Cfb)
        } else if str_eq(l, "bf-cfb") {
            Some(CipherMethod::BfCfb)
        } else if str_eq(l, "cast5-cfb") {
            Some(CipherMethod::Cast5Cfb)
        } else if str_eq(l, "des-cfb") {
            Some(CipherMethod::DesCfb)
        } else if str_eq(l, "idea-cfb") {
            Some(CipherMethod::IdeaCfb)
        } else if str_eq(l, "rc2-cfb") {
            Some(CipherMethod::Rc2Cfb)
        } else if str_eq(l, "seed-cfb") {
            Some(CipherMethod::SeedCfb)
        } else if str_eq(l, "salsa20") {
            Some(CipherMethod::Salsa20)
        } else if str_eq(l, "chacha20") {
            Some(CipherMethod::ChaCha20)
        } else if str_eq(l, "chacha20-ietf") {
            Some(CipherMethod::ChaCha20Ietf)
        } else {
            None
        }
    }

    /// The canonical name of the method.
    pub fn name(&self) -> (r: &'static str)
        ensures
            r@ == cipher_name(*self),
    {
        match self {
            CipherMethod::NoEncryption => "none",
            CipherMethod::Table => "table",
            CipherMethod::Rc4 => "rc4",
            CipherMethod::Rc4Md5 => "rc4-md5",
            CipherMethod::Rc4Md5_6 => "rc4-md5-6",
            CipherMethod::Aes128Cfb => "aes-128-cfb",
            CipherMethod::Aes192Cfb => "aes-192-cfb",
            CipherMethod::Aes256Cfb => "aes-256-cfb",
            CipherMethod::Aes128Ctr => "aes-128-ctr",
            CipherMethod::Aes192Ctr => "aes-192-ctr",
            CipherMethod::Aes256Ctr => "aes-256-ctr",
            CipherMethod::Camellia128Cfb => "camellia-128-cfb",
            CipherMethod::Camellia192Cfb => "camellia-192-cfb",
            CipherMethod::Camellia256Cfb => "camellia-256-cfb",
            CipherMethod::BfCfb => "bf-cfb",
            CipherMethod::Cast5Cfb => "cast5-cfb",
            CipherMethod::DesCfb => "des-cfb",
            CipherMethod::IdeaCfb => "idea-cfb",
            CipherMethod::Rc2Cfb => "rc2-cfb",
            CipherMethod::SeedCfb => "seed-cfb",
            CipherMethod::Salsa20 => "salsa20",
            CipherMethod::ChaCha20 => "chacha20",
            CipherMethod::ChaCha20Ietf => "chacha20-ietf",
        }
    }

    /// Key length in bytes.
    pub fn key_len(&self) -> (r: usize)
        ensures
            r == cipher_key_len(*self),
    {
        match self {
            CipherMethod::Aes192Cfb | CipherMethod::Aes192Ctr | CipherMethod::Camellia192Cfb => 24,
            CipherMethod::Aes256Cfb | CipherMethod::Aes256Ctr | CipherMethod::Camellia256Cfb
            | CipherMethod::Salsa20 | CipherMethod::ChaCha20 | CipherMethod::ChaCha20Ietf => 32,
            CipherMethod::DesCfb => 8,
            _ => 16,
        }
    }

    /// IV length in bytes.
    pub fn iv_len(&self) -> (r: usize)
        ensures
            r == cipher_iv_len(*self),
    {
        match self {
            CipherMethod::NoEncryption | CipherMethod::Table | CipherMethod::Rc4 => 0,
            CipherMethod::Rc4Md5_6 => 6,
            CipherMethod::BfCfb | CipherMethod::Cast5Cfb | CipherMethod::DesCfb | CipherMethod::IdeaCfb
            | CipherMethod::Rc2Cfb | CipherMethod::Salsa20 | CipherMethod::ChaCha20 => 8,
            CipherMethod::ChaCha20Ietf => 12,
            _ => 16,
        }
    }

    /// Whether the IV is sent in front of the first encrypted chunk.
    pub fn need_iv_prepend(&self) -> (r: bool)
        ensures
            r == cipher_iv_prepended(*self),
    {
        self.iv_len() > 0
    }
}

} // verus!
