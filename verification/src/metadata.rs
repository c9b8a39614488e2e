//! Metadata of an installed web server layer, and the comparison that names
//! the fields whose change invalidates a cached installation.

use vstd::prelude::*;
use vstd::string::StringExecFns;

verus! {

/// What a web server installation was built from: which server, which
/// version, and for which platform.
#[derive(Clone, Debug, PartialEq, Eq)]
pub struct WebServerLayerMetadata {
    pub web_server_name: String,
    pub web_server_version: String,
    pub arch: String,
    pub os: String,
}

/// The labels of the fields on which `o` and `n` differ, in ascending byte
/// order of the labels.
pub open spec fn changed_fields(o: WebServerLayerMetadata, n: WebServerLayerMetadata) -> Seq<
    Seq<char>,
> {
    (if o.arch@ != n.arch@ {
        seq!["compute architecture"@]
    } else {
        Seq::empty()
    }) + (if o.os@ != n.os@ {
        seq!["operating system"@]
    } else {
        Seq::empty()
    }) + (if o.web_server_name@ != n.web_server_name@ {
        seq!["web server name"@]
    } else {
        Seq::empty()
    }) + (if o.web_server_version@ != n.web_server_version@ {
        seq!["web server version"@]
    } else {
        Seq::empty()
    })
}

/// The abstract value of a list of labels.
pub open spec fn labels_view(s: Seq<String>) -> Seq<Seq<char>> {
    s.map_values(|x: String| x@)
}

/// Names the metadata fields on which the two records differ, sorted
/// ascending: which of server name, server version, operating system and
/// architecture changed between a cached installation and the one asked for.
pub fn changed_metadata_fields(
    old_meta: &WebServerLayerMetadata,
    new_meta: &WebServerLayerMetadata,
) -> (r: Vec<String>)
    ensures
        labels_view(r@) == changed_fields(*old_meta, *new_meta),
{
    let mut changed: Vec<String> = Vec::new();
    if !(old_meta.arch == new_meta.arch) {
        changed.push(String::from_str("compute architecture"));
    }
    let ghost g1 = labels_view(changed@);
    proof {
        assert(g1 =~= if old_meta.arch@ != new_meta.arch@ {
            seq!["compute architecture"@]
        } else {
            Seq::<Seq<char>>::empty()
        });
    }
    if !(old_meta.os == new_meta.os) {
        changed.push(String::from_str("operating system"));
    }
    let ghost g2 = labels_view(changed@);
    proof {
        assert(g2 =~= g1 + if old_meta.os@ != new_meta.os@ {
            seq!["operating system"@]
        } else {
            Seq::<Seq<char>>::empty()
        });
    }
    if !(old_meta.web_server_name == new_meta.web_server_name) {
        changed.push(String::from_str("web server name"));
    }
    let ghost g3 = labels_view(changed@);
    proof {
        assert(g3 =~= g2 + if old_meta.web_server_name@ != new_meta.web_server_name@ {
            seq!["web server name"@]
        } else {
            Seq::<Seq<char>>::empty()
        });
    }
    if !(old_meta.web_server_version == new_meta.web_server_version) {
        changed.push(String::from_str("web server version"));
    }
    proof {
        assert(labels_view(changed@) =~= g3 + if old_meta.web_server_version@
            != new_meta.web_server_version@ {
            seq!["web server version"@]
        } else {
            Seq::<Seq<char>>::empty()
        });
        assert(labels_view(changed@) =~= changed_fields(*old_meta, *new_meta));
    }
    changed
}

} // verus!
