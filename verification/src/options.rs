//! The options with which the entries of one archive are written.

use crate::container::chosen;
use crate::container::options_default;
use crate::container::options_encryption;
use crate::container::options_method;
use crate::container::options_permissions;
use crate::container::CodecOptions;
use crate::container::KeyLength;
use crate::container::PERMISSION_MASK;
use crate::method::into_comp_method;
use crate::method::method_for_code;
use crate::method::CompressionMethod;
use vstd::prelude::*;

verus! {

/// How every entry of an archive is written: the compression method, the
/// permission bits stored with each entry, and the encryption.
#[derive(Debug, PartialEq, Eq)]
pub struct EntryOptions {
    pub method: CompressionMethod,
    pub unix_mode: Option<u32>,
    pub encryption: Option<(KeyLength, String)>,
}

/// The mathematical value of `EntryOptions`.
pub struct OptionsView {
    pub method: CompressionMethod,
    pub unix_mode: Option<u32>,
    pub encryption: Option<(KeyLength, Seq<char>)>,
}

impl View for EntryOptions {
    type V = OptionsView;

    open spec fn view(&self) -> OptionsView {
        OptionsView {
            method: self.method,
            unix_mode: self.unix_mode,
            encryption: match self.encryption {
                Some((key, password)) => Some((key, password@)),
                None => None,
            },
        }
    }
}

/// The options that the parameters of an archive ask for: the method that
/// the code selects, the permission bits as given, and AES-256 under the
/// password where there is one.
pub open spec fn options_for(method: u16, mode: Option<u32>, password: Option<Seq<char>>) -> OptionsView {
    OptionsView {
        method: method_for_code(method),
        unix_mode: mode,
        encryption: match password {
            Some(text) => Some((KeyLength::Aes256, text)),
            None => None,
        },
    }
}

/// The options as the container holds them: the method and the encryption
/// as they are, and of the mode the permission bits alone.
pub open spec fn held(options: OptionsView) -> OptionsView {
    OptionsView {
        method: options.method,
        unix_mode: match options.unix_mode {
            Some(mode) => Some(mode & PERMISSION_MASK),
            None => None,
        },
        encryption: options.encryption,
    }
}

/// The view of an optional password.
pub open spec fn password_view(password: Option<String>) -> Option<Seq<char>> {
    match password {
        Some(text) => Some(text@),
        None => None,
    }
}

impl EntryOptions {
    /// The options for the entries of an archive made with the given method
    /// code, permission bits and password.
    pub fn new(method: u16, mode: Option<u32>, password: Option<String>) -> (options: EntryOptions)
        ensures
            options@ == options_for(method, mode, password_view(password)),
    {
        let encryption = match password {
            Some(text) => Some((KeyLength::Aes256, text)),
            None => None,
        };
        EntryOptions { method: into_comp_method(method), unix_mode: mode, encryption }
    }

    /// These options in the form that the container takes: its defaults,
    /// then the method, the encryption where there is one, and the
    /// permission bits where they are given. The container holds the method
    /// and the encryption as they are, and of the mode the permission bits.
    pub(crate) fn codec(&self) -> (options: CodecOptions<'_>)
        ensures
            chosen(options) == held(self@),
    {
        let mut options = options_method(options_default(), self.method);
        if let Some((key, password)) = &self.encryption {
            options = options_encryption(options, *key, password.as_str());
        }
        if let Some(mode) = self.unix_mode {
            options = options_permissions(options, mode);
        }
        options
    }
}

} // verus!
