use vstd::prelude::*;

use crate::error::ConnectionError;

verus! {

/// The socket path made of a runtime directory and a display name, joined as
/// a filesystem path is extended by one component: an absolute name stands
/// for itself, and a separator is put between the two only where the
/// directory is non-empty and does not already end in one.
pub open spec fn joined_path(dir: Seq<char>, name: Seq<char>) -> Seq<char> {
    if name.len() > 0 && name[0] == '/' {
        name
    } else if dir.len() == 0 || dir.last() == '/' {
        dir + name
    } else {
        dir + seq!['/'] + name
    }
}

/// Decides where the display server's socket lives. An explicit path is
/// taken as it is. Without one, the path is the display name under the
/// runtime directory, and both must be configured.
pub fn resolve_socket_path(
    explicit: Option<String>,
    runtime_dir: Option<String>,
    display: Option<String>,
) -> (r: Result<String, ConnectionError>)
    ensures
        explicit matches Some(p) ==> (r matches Ok(q) && q@ == p@),
        explicit is None && (runtime_dir is None || display is None) ==> r == Err::<
            String,
            ConnectionError,
        >(ConnectionError::ConfigurationMissing),
        explicit is None && runtime_dir is Some && display is Some ==> (r matches Ok(q) && q@
            == joined_path(runtime_dir->0@, display->0@)),
{
    if let Some(path) = explicit {
        return Ok(path);
    }
    let (dir, name) = match (runtime_dir, display) {
        (Some(dir), Some(name)) => (dir, name),
        _ => return Err(ConnectionError::ConfigurationMissing),
    };
    let name_len = name.as_str().unicode_len();
    if name_len > 0 && name.as_str().get_char(0) == '/' {
        return Ok(name);
    }
    let dir_len = dir.as_str().unicode_len();
    let mut out = dir;
    if dir_len > 0 && out.as_str().get_char(dir_len - 1) != '/' {
        proof {
            reveal_strlit("/");
        }
        out.append("/");
    }
    out.append(name.as_str());
    Ok(out)
}

} // verus!
