use vstd::prelude::*;

verus! {

/// Deserialization settings. Every option is off by default (strict JSON).
#[derive(Clone, Copy, Debug)]
pub struct Settings {
    /// Allow duplicate object keys such as `{"a": 1, "a": 2}`. The map keeps
    /// the first key, at its first position, with the last value.
    pub allow_duplicate_keys: bool,
    /// Allow a trailing comma in an array such as `[1, 2, 3,]` or an object
    /// such as `{"a": 1, "b": 2,}`.
    pub allow_trailing_comma: bool,
    /// Allow `// single line` and `/* block */` comments.
    pub allow_comments: bool,
}

impl Default for Settings {
    fn default() -> (r: Settings)
        ensures
            !r.allow_duplicate_keys,
            !r.allow_trailing_comma,
            !r.allow_comments,
    {
        Settings { allow_duplicate_keys: false, allow_trailing_comma: false, allow_comments: false }
    }
}

} // verus!
