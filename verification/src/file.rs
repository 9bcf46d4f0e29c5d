use vstd::prelude::*;

verus! {

use crate::HashOutput;
use crate::namefilter::{Namefilter, apply_upto, add_seed, BITS_PER_ADD};
use crate::node::{INumber, Metadata, PrivateNodeHeader, UnixFsNodeKind, parent_base, ratchet_of};

/// The body of a private file: metadata and inline content bytes.
pub struct PrivateFileMain {
    pub metadata: Metadata,
    pub content: Vec<u8>,
}

/// An encrypted file node: identity header plus body.
pub struct PrivateFile {
    pub header: PrivateNodeHeader,
    pub main: PrivateFileMain,
}

impl PrivateFile {
    /// A fresh file with the given content, stamped with the given time.
    pub fn new(
        parent_bare_name: Option<Namefilter>,
        inumber: INumber,
        ratchet_seed: HashOutput,
        time: i64,
        content: Vec<u8>,
    ) -> (r: PrivateFile)
        requires
            parent_bare_name matches Some(n) ==> n.wf(),
        ensures
            r.header.bare_name.wf(),
            r.header.bare_name@ == apply_upto(
                parent_base(parent_bare_name),
                add_seed(parent_base(parent_bare_name), r.header.inumber@),
                BITS_PER_ADD as int,
            ),
            r.header.ratchet == ratchet_of(ratchet_seed@),
            r.header.ratchet_seed == ratchet_seed,
            r.header.inumber == inumber,
            r.main.metadata.created == time,
            r.main.metadata.kind == UnixFsNodeKind::File,
            r.main.content == content,
    {
        PrivateFile {
            header: PrivateNodeHeader::new(parent_bare_name, inumber, ratchet_seed),
            main: PrivateFileMain { metadata: Metadata::new(time, UnixFsNodeKind::File), content },
        }
    }
}

} // verus!
