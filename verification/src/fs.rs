//! Source text of the built-in libraries that `#include` can name.
use vstd::prelude::*;
use vstd::string::*;
use crate::text::str_eq;

verus! {

/// The declarations that `#include <Sys>` brings in.
pub open spec fn sys_text() -> Seq<char> {
    "extern fn printf(fmt, value);\nextern fn malloc(size);\nextern fn free(ptr);\n"@
}

/// The text of the library `path` names, or `None` if there is no such library.
pub open spec fn library_text(path: Seq<char>) -> Option<Seq<char>> {
    if path == "Sys"@ || path == "sys"@ {
        Some(sys_text())
    } else {
        None
    }
}

/// Attempts to open a file from the given path or a standard library.
///
/// Returns the file content, and the message to report when the path names
/// nothing that can be opened (the content is then empty).
pub fn open_file_or_lib(path: &str) -> (r: (String, Option<String>))
    ensures
        match library_text(path@) {
            Some(text) => r.0@ == text && r.1 is None,
            None => r.0@ == Seq::<char>::empty() && r.1 is Some && r.1.unwrap()@ == "cant open file "@
                + path@,
        },
{
    if str_eq(path, "Sys") || str_eq(path, "sys") {
        (String::from_str("extern fn printf(fmt, value);\nextern fn malloc(size);\nextern fn free(ptr);\n"), None)
    } else {
        let mut msg = String::from_str("cant open file ");
        msg.append(path);
        (String::new(), Some(msg))
    }
}

} // verus!
