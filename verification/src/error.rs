//! The errors of the library, with the messages that the command line shows.

use vstd::prelude::*;
use crate::text::{cat2, cat3, cat4, decimal, usize_to_decimal};

verus! {

/// Everything that can go wrong in envlock's rules.
#[derive(Debug)]
pub enum Error {
    /// `.envlock/identity.txt` does not exist.
    NoIdentity,
    /// The recipients file at the given path does not exist.
    NoRecipientsFile(String),
    /// The recipients file holds no recipient.
    EmptyRecipients,
    /// The given path does not end with `.vault`.
    NotAVault(String),
    /// The text is not an age identity; the parser's reason.
    InvalidIdentity(String),
    /// The text is not an age recipient; the parser's reason.
    InvalidRecipient(String),
    /// Encryption was asked for with no recipient.
    NoRecipients,
    /// The recipient's key is a low-order point, which no file may be
    /// encrypted to.
    LowOrderRecipient(String),
    /// The ciphertext could not be decrypted with the identity.
    DecryptionFailed,
    /// Decrypted content is not UTF-8.
    NotUtf8,
    /// The given (1-based) line holds no `=`.
    MissingEquals(usize, String),
    /// The `.env` parser rejected the given line, for the given reason.
    LineRejected(usize, String, String),
    /// The `.env` parser found no assignment on the given line.
    NoAssignment(usize, String),
    /// The `.env` parser rejected the content, for the given reason.
    EnvParse(String),
    /// The `.env` parser rejected the edited content, for the given reason.
    EditParse(String),
    /// The key given to `recipients add` is not a recipient; the key and the
    /// parser's reason.
    NotARecipient(String, String),
    /// The recipient is already listed.
    DuplicateRecipient(String),
    /// The recipient is not listed.
    RecipientNotFound(String),
    /// Removing the recipient would leave none.
    LastRecipient,
    /// A listed recipient does not parse; the context and the reason.
    RecipientList(String, String),
    /// The plaintext file at the given path is empty.
    EmptyPlaintext(String),
    /// The vault at the given path decrypted to nothing, for the given use.
    EmptyVault(String, Purpose),
    /// The vault at the given path holds no key-value pair, for the given use.
    NoPairs(String, Purpose),
    /// The edited file is empty.
    EditedEmpty,
    /// No command was given to run; the usage line.
    NoCommand(String),
    /// The key is not in the vault; the key, the vault, and the vault's keys.
    KeyNotFound(String, String, String),
    /// No new value was given for the key.
    NoNewValue(String),
    /// The export format is not one of dotenv, json, github.
    UnknownFormat(String),
    /// No environment variable has the prefix.
    NoPrefixedVars(String),
    /// The output vault exists and overwriting was not asked for.
    VaultExists(String),
    /// `hook install` was run outside the root of a git repository.
    NoHooksDir,
}

/// What an emptied or pairless vault was about to be used for.
#[derive(Clone, Copy, Debug, PartialEq, Eq, Structural)]
pub enum Purpose {
    Run,
    Export,
    Edit,
    Rotate,
    Diff,
}

/// The message shown for `e`.
pub open spec fn spec_message(e: Error) -> Seq<char> {
    match e {
        Error::NoIdentity => "No identity found. Run 'envlock init' first."@,
        Error::NoRecipientsFile(p) => "No recipients file found at "@ + p@
            + ". Run 'envlock init' first."@,
        Error::EmptyRecipients => "Recipients file is empty. Something went wrong during init."@,
        Error::NotAVault(p) => "Vault file must end with .vault, got: "@ + p@,
        Error::InvalidIdentity(m) => "Failed to parse age identity: "@ + m@,
        Error::InvalidRecipient(m) => "Failed to parse age recipient: "@ + m@,
        Error::NoRecipients => "No valid recipients provided"@,
        Error::LowOrderRecipient(r) => "Recipient "@ + r@ + " has a low-order key and cannot be encrypted to"@,
        Error::DecryptionFailed => "Decryption failed"@,
        Error::NotUtf8 => "Decrypted vault content is not valid UTF-8 \u{2014} the vault may be corrupted"@,
        Error::MissingEquals(n, t) => "Parse error on line "@ + decimal(n as nat) + ": '"@ + t@
            + "' \u{2014} expected KEY=VALUE"@,
        Error::LineRejected(n, t, m) => "Parse error on line "@ + decimal(n as nat) + ": '"@ + t@
            + "' \u{2014} "@ + m@,
        Error::NoAssignment(n, t) => "Parse error on line "@ + decimal(n as nat) + ": '"@ + t@
            + "' \u{2014} not a valid KEY=VALUE assignment"@,
        Error::EnvParse(_) => "Failed to parse .env line"@,
        _ => spec_message2(e),
    }
}

/// The cause that an error wraps: the parser's reason behind a refused
/// `.env` text or recipient.
pub open spec fn spec_cause(e: Error) -> Option<String> {
    match e {
        Error::EnvParse(m) => Some(m),
        Error::EditParse(m) => Some(m),
        Error::NotARecipient(_, m) => Some(m),
        Error::RecipientList(_, m) => Some(m),
        _ => None,
    }
}

/// The message shown for the errors of the commands.
pub open spec fn spec_message2(e: Error) -> Seq<char> {
    match e {
        Error::EditParse(_) => "Failed to parse edited .env content"@,
        Error::NotARecipient(k, _) => "'"@ + k@ + "' is not a valid age recipient (expected age1...)"@,
        Error::DuplicateRecipient(k) => "Recipient "@ + k@ + " is already in .envlock/recipients.txt"@,
        Error::RecipientNotFound(k) => "Recipient "@ + k@ + " not found in .envlock/recipients.txt"@,
        Error::LastRecipient => "Cannot remove the last recipient \u{2014} at least one recipient is required so that .env files remain decryptable. Add a new recipient first."@,
        Error::RecipientList(c, _) => c@,
        Error::EmptyPlaintext(p) => "Plaintext file "@ + p@ + " is empty \u{2014} nothing to encrypt"@,
        Error::EmptyVault(v, Purpose::Run) => "Vault "@ + v@ + " decrypted to empty content. Add keys to your .env and run `envlock encrypt`."@,
        Error::EmptyVault(v, Purpose::Export) => "Vault "@ + v@ + " is empty \u{2014} nothing to export"@,
        Error::EmptyVault(v, Purpose::Edit) => "Vault "@ + v@ + " is empty \u{2014} nothing to edit"@,
        Error::EmptyVault(v, Purpose::Rotate) => "Vault "@ + v@ + " is empty \u{2014} nothing to rotate"@,
        Error::EmptyVault(v, Purpose::Diff) => "Vault "@ + v@ + " decrypted to empty content"@,
        Error::NoPairs(v, Purpose::Run) => "Vault "@ + v@ + " contains no key-value pairs. Add keys to your .env and run `envlock encrypt`."@,
        Error::NoPairs(_, Purpose::Edit) => "Edited file contains no key-value pairs \u{2014} vault left unchanged"@,
        Error::NoPairs(_, _) => "Vault contains no key-value pairs \u{2014} nothing to export"@,
        Error::EditedEmpty => "Edited file is empty \u{2014} vault left unchanged. If this was a mistake, the vault is intact."@,
        Error::NoCommand(u) => "No command provided. Usage: "@ + u@,
        Error::KeyNotFound(k, v, ks) => "Key '"@ + k@ + "' not found in vault "@ + v@ + ". Existing keys: "@ + ks@,
        Error::NoNewValue(k) => "No new value provided for '"@ + k@ + "'. Use --value <val> or --prompt."@,
        Error::UnknownFormat(f) => "Unknown export format '"@ + f@ + "'. Supported: dotenv, json, github"@,
        Error::NoPrefixedVars(p) => "No environment variables found with prefix '"@ + p@ + "'. Set vars like "@ + p@ + "DB_URL=xxx before running this command."@,
        Error::NoHooksDir => "No .git/hooks directory found. Run this from the root of a git repository."@,
        Error::VaultExists(p) => p@ + " already exists. Use --overwrite to replace it, or choose a different --output path."@,
        _ => Seq::<char>::empty(),
    }
}

fn line_prefix(n: usize, t: &String) -> (res: String)
    ensures
        res@ == "Parse error on line "@ + decimal(n as nat) + ": '"@ + t@,
{
    let mut s = String::from_str("Parse error on line ");
    let d = usize_to_decimal(n);
    s.append(d.as_str());
    s.append(": '");
    s.append(t.as_str());
    s
}

impl Error {
    /// The message shown for this error.
    pub fn to_string(&self) -> (res: String)
        ensures
            res@ == spec_message(*self),
    {
        match self {
            Error::NoIdentity => String::from_str("No identity found. Run 'envlock init' first."),
            Error::NoRecipientsFile(p) => {
                let mut s = String::from_str("No recipients file found at ");
                s.append(p.as_str());
                s.append(". Run 'envlock init' first.");
                s
            },
            Error::EmptyRecipients => String::from_str(
                "Recipients file is empty. Something went wrong during init.",
            ),
            Error::NotAVault(p) => {
                let mut s = String::from_str("Vault file must end with .vault, got: ");
                s.append(p.as_str());
                s
            },
            Error::InvalidIdentity(m) => {
                let mut s = String::from_str("Failed to parse age identity: ");
                s.append(m.as_str());
                s
            },
            Error::InvalidRecipient(m) => {
                let mut s = String::from_str("Failed to parse age recipient: ");
                s.append(m.as_str());
                s
            },
            Error::NoRecipients => String::from_str("No valid recipients provided"),
            Error::LowOrderRecipient(r) => cat3("Recipient ", r.as_str(),
                " has a low-order key and cannot be encrypted to"),
            Error::DecryptionFailed => String::from_str("Decryption failed"),
            Error::NotUtf8 => String::from_str(
                "Decrypted vault content is not valid UTF-8 \u{2014} the vault may be corrupted",
            ),
            Error::MissingEquals(n, t) => {
                let mut s = line_prefix(*n, t);
                s.append("' \u{2014} expected KEY=VALUE");
                s
            },
            Error::LineRejected(n, t, m) => {
                let mut s = line_prefix(*n, t);
                s.append("' \u{2014} ");
                s.append(m.as_str());
                s
            },
            Error::NoAssignment(n, t) => {
                let mut s = line_prefix(*n, t);
                s.append("' \u{2014} not a valid KEY=VALUE assignment");
                s
            },
            Error::EnvParse(_) => String::from_str("Failed to parse .env line"),
            _ => self.command_message(),
        }
    }

    /// The underlying cause that this error wraps, shown below its message.
    pub fn cause(&self) -> (res: Option<String>)
        ensures
            res == spec_cause(*self),
    {
        match self {
            Error::EnvParse(m) => Some(m.clone()),
            Error::EditParse(m) => Some(m.clone()),
            Error::NotARecipient(_, m) => Some(m.clone()),
            Error::RecipientList(_, m) => Some(m.clone()),
            _ => None,
        }
    }

    fn command_message(&self) -> (res: String)
        ensures
            res@ == spec_message2(*self),
    {
        match self {
            Error::EditParse(_) => String::from_str("Failed to parse edited .env content"),
            Error::NotARecipient(k, _) => cat3("'", k.as_str(),
                "' is not a valid age recipient (expected age1...)"),
            Error::DuplicateRecipient(k) => cat3("Recipient ", k.as_str(),
                " is already in .envlock/recipients.txt"),
            Error::RecipientNotFound(k) => cat3("Recipient ", k.as_str(),
                " not found in .envlock/recipients.txt"),
            Error::LastRecipient => String::from_str("Cannot remove the last recipient \u{2014} at least one recipient is required so that .env files remain decryptable. Add a new recipient first."),
            Error::RecipientList(c, _) => c.clone(),
            Error::EmptyPlaintext(p) => cat3("Plaintext file ", p.as_str(),
                " is empty \u{2014} nothing to encrypt"),
            Error::EmptyVault(v, Purpose::Run) => cat3("Vault ", v.as_str(),
                " decrypted to empty content. Add keys to your .env and run `envlock encrypt`."),
            Error::EmptyVault(v, Purpose::Export) => cat3("Vault ", v.as_str(),
                " is empty \u{2014} nothing to export"),
            Error::EmptyVault(v, Purpose::Edit) => cat3("Vault ", v.as_str(),
                " is empty \u{2014} nothing to edit"),
            Error::EmptyVault(v, Purpose::Rotate) => cat3("Vault ", v.as_str(),
                " is empty \u{2014} nothing to rotate"),
            Error::EmptyVault(v, Purpose::Diff) => cat3("Vault ", v.as_str(),
                " decrypted to empty content"),
            Error::NoPairs(v, Purpose::Run) => cat3("Vault ", v.as_str(),
                " contains no key-value pairs. Add keys to your .env and run `envlock encrypt`."),
            Error::NoPairs(_, Purpose::Edit) => String::from_str(
                "Edited file contains no key-value pairs \u{2014} vault left unchanged"),
            Error::NoPairs(_, _) => String::from_str(
                "Vault contains no key-value pairs \u{2014} nothing to export"),
            Error::EditedEmpty => String::from_str("Edited file is empty \u{2014} vault left unchanged. If this was a mistake, the vault is intact."),
            Error::NoCommand(u) => cat2("No command provided. Usage: ", u.as_str()),
            Error::KeyNotFound(k, v, ks) => {
                let mut s = cat4("Key '", k.as_str(), "' not found in vault ", v.as_str());
                s.append(". Existing keys: ");
                s.append(ks.as_str());
                s
            },
            Error::NoNewValue(k) => cat3("No new value provided for '", k.as_str(),
                "'. Use --value <val> or --prompt."),
            Error::UnknownFormat(f) => cat3("Unknown export format '", f.as_str(),
                "'. Supported: dotenv, json, github"),
            Error::NoPrefixedVars(p) => {
                let mut s = cat4("No environment variables found with prefix '", p.as_str(),
                    "'. Set vars like ", p.as_str());
                s.append("DB_URL=xxx before running this command.");
                s
            },
            Error::NoHooksDir => String::from_str(
                "No .git/hooks directory found. Run this from the root of a git repository.",
            ),
            Error::VaultExists(p) => cat2(p.as_str(),
                " already exists. Use --overwrite to replace it, or choose a different --output path."),
            _ => String::new(),
        }
    }
}

} // verus!
