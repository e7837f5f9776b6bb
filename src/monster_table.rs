use vstd::prelude::*;
use vstd::string::StringSliceAdditionalSpecFns;

verus! {

/// JSON whitespace.
pub open spec fn is_json_space(c: u8) -> bool {
    c == 32u8 || c == 9u8 || c == 10u8 || c == 13u8
}

/// A byte that may follow a backslash: anything but `u`, which would
/// start a unicode escape.
pub open spec fn is_simple_escape(c: u8) -> bool {
    c != 117u8
}

/// Text that opens with an object: its first byte other than whitespace
/// is `{`, its last one is `}`, and every backslash is followed by a byte
/// other than `u`.
pub open spec fn readable_json_text(b: Seq<u8>) -> bool {
    &&& exists|i: int| 0 <= i < b.len() && b[i] == 123u8 && #[trigger] all_space(b, 0, i)
    &&& exists|i: int| 0 <= i < b.len() && b[i] == 125u8 && #[trigger] all_space(b, i + 1, b.len() as int)
    &&& forall|i: int| 0 <= i < b.len() && #[trigger] b[i] == 92u8 ==> i + 1 < b.len() && is_simple_escape(b[i + 1])
}

/// The bytes of `b` from `lo` up to `hi` are all whitespace.
pub open spec fn all_space(b: Seq<u8>, lo: int, hi: int) -> bool {
    forall|j: int| lo <= j < hi ==> is_json_space(#[trigger] b[j])
}

/// Whether `doc` is readable JSON text.
pub fn is_readable_json_text(doc: &str) -> (r: bool)
    ensures
        r == readable_json_text(doc.spec_bytes()),
{
    let b = doc.as_bytes();
    let n = b.len();
    let mut i: usize = 0;
    while i < n && (b[i] == 32u8 || b[i] == 9u8 || b[i] == 10u8 || b[i] == 13u8)
        invariant
            b@ == doc.spec_bytes(),
            n == b@.len(),
            0 <= i <= n,
            all_space(b@, 0, i as int),
        decreases n - i,
    {
        i = i + 1;
    }
    let opens = i < n && b[i] == 123u8;
    proof {
        if !opens {
            assert forall|k: int| 0 <= k < b@.len() && b@[k] == 123u8 implies !#[trigger] all_space(b@, 0, k) by {
                if k > i {
                    assert(!is_json_space(b@[i as int]));
                }
            }
        } else {
            assert(all_space(b@, 0, i as int));
            assert(b@[i as int] == 123u8);
        }
    }
    let mut j: usize = n;
    while j > 0 && (b[j - 1] == 32u8 || b[j - 1] == 9u8 || b[j - 1] == 10u8 || b[j - 1] == 13u8)
        invariant
            b@ == doc.spec_bytes(),
            n == b@.len(),
            0 <= j <= n,
            all_space(b@, j as int, n as int),
        decreases j,
    {
        j = j - 1;
    }
    let closes = j > 0 && b[j - 1] == 125u8;
    proof {
        if !closes {
            assert forall|k: int| 0 <= k < b@.len() && b@[k] == 125u8 implies !#[trigger] all_space(b@, k + 1, b@.len() as int) by {
                if k + 1 < j {
                    assert(!is_json_space(b@[j - 1]));
                }
            }
        } else {
            let w = j as int - 1;
            assert(all_space(b@, w + 1, b@.len() as int));
            assert(b@[w] == 125u8);
        }
    }
    let mut escapes_ok = true;
    let mut k: usize = 0;
    while k < n
        invariant
            b@ == doc.spec_bytes(),
            n == b@.len(),
            0 <= k <= n,
            escapes_ok == forall|m: int| 0 <= m < k && #[trigger] b@[m] == 92u8 ==> m + 1 < n && is_simple_escape(b@[m + 1]),
        decreases n - k,
    {
        if b[k] == 92u8 {
            if k + 1 >= n {
                escapes_ok = false;
            } else {
                let c = b[k + 1];
                if c == 117u8 {
                    escapes_ok = false;
                }
            }
        }
        k = k + 1;
    }
    opens && closes && escapes_ok
}

/// What `ajson::get(doc, "saved_configs")` finds in `doc`, as ajson renders
/// it: the raw text of an array or object, the content of a string; none
/// when there is no such entry.
pub uninterp spec fn saved_configs_text(doc: Seq<char>) -> Option<Seq<char>>;

/// Relies on `ajson::get` with the plain key `saved_configs`, rendered with
/// `Value`'s `Display`; a failed lookup counts as no value. The document is
/// held to what keeps the parser inside its input: it starts at the object
/// (`get` jumps to the first `{`), it neither ends in a quote nor in a
/// backslash (which `string_u8` would step past), and it has no `\u` escape
/// (whose hex digits `unescape` panics on).
#[verifier::external_body]
fn saved_configs_of(doc: &str) -> (r: Option<String>)
    requires
        readable_json_text(doc.spec_bytes()),
    ensures
        r matches Some(t) ==> saved_configs_text(doc@) == Some(t@),
        r is None ==> saved_configs_text(doc@) is None,
{
    match ajson::get(doc, "saved_configs") {
        Ok(Some(v)) => Some(v.to_string()),
        _ => None,
    }
}

/// Why the monster table could not be read.
#[derive(Clone, Copy, Debug, PartialEq, Eq, Structural)]
pub enum ConfigError {
    /// The document is not readable JSON text (see `readable_json_text`).
    Malformed,
    /// The document has no `saved_configs` entry.
    MissingTable,
}

/// The JSON text of the record array stored under `saved_configs` in the
/// monster table document `doc`.
pub fn monster_table_json(doc: &str) -> (r: Result<String, ConfigError>)
    ensures
        !readable_json_text(doc.spec_bytes()) ==> r == Err::<String, ConfigError>(ConfigError::Malformed),
        readable_json_text(doc.spec_bytes()) ==> match saved_configs_text(doc@) {
            Some(t) => r matches Ok(s) && s@ == t,
            None => r == Err::<String, ConfigError>(ConfigError::MissingTable),
        },
{
    if !is_readable_json_text(doc) {
        return Err(ConfigError::Malformed);
    }
    match saved_configs_of(doc) {
        Some(text) => Ok(text),
        None => Err(ConfigError::MissingTable),
    }
}

} // verus!
