//! The blob as a whole: its header, its root, and lookups by alias and path.

use crate::children::{children_from, find_child, lemma_child_at_advances};
use crate::node::{short_name, spec_parse, DeviceTreeNode, NodeView, ParsingError};
use crate::properties::{find_property, string_value};
use crate::reserve_entry::MemoryReserveEntryIter;
use crate::text::{first_of, index_of, same_text};
use crate::wire::{be_u32, read_word, remaining};
use vstd::prelude::*;
use vstd::string::StrSliceExecFns;

verus! {

/// The one version of the format that this decoder reads.
pub const DTB_VERSION: u32 = 17;

/// The word that every blob begins with.
pub const MAGIC_VALUE: u32 = 0xd00dfeed;

/// The number of bytes that the header takes up.
pub const HEADER_SIZE: usize = 40;

/// The header of the blob, each field in host order.
#[derive(Debug, Clone, Copy, PartialEq, Eq)]
pub struct Header {
    pub magic: u32,
    pub totalsize: u32,
    pub off_dt_struct: u32,
    pub off_dt_strings: u32,
    pub off_mem_rsvmap: u32,
    pub version: u32,
    pub last_comp_version: u32,
    pub boot_cpuid_phys: u32,
    pub size_dt_strings: u32,
    pub size_dt_struct: u32,
}

/// Why a blob could not be opened.
#[derive(Debug, Clone, Copy, PartialEq, Eq)]
pub enum DtbInitError {
    /// Neither version field of the header names the version that is read.
    UnsupportedDtbVersion,
    /// The blob does not begin with the magic word.
    InvalidHeader { expected: u32, found: u32 },
    /// The root has no child called `cpus`.
    NoCpusNode,
    /// The blob is shorter than its header, or the root or one of its
    /// children could not be decoded.
    ParsingError(ParsingError),
}

/// The header that the first ten big-endian words of a blob spell out.
pub open spec fn header_of(bytes: Seq<u8>) -> Header {
    Header {
        magic: be_u32(bytes, 0),
        totalsize: be_u32(bytes, 4),
        off_dt_struct: be_u32(bytes, 8),
        off_dt_strings: be_u32(bytes, 12),
        off_mem_rsvmap: be_u32(bytes, 16),
        version: be_u32(bytes, 20),
        last_comp_version: be_u32(bytes, 24),
        boot_cpuid_phys: be_u32(bytes, 28),
        size_dt_strings: be_u32(bytes, 32),
        size_dt_struct: be_u32(bytes, 36),
    }
}

/// The children of a node, in the order of the blob.
pub open spec fn children_of(bytes: Seq<u8>, node: NodeView) -> Result<
    Seq<NodeView>,
    ParsingError,
> {
    match node.children {
        Some(pos) => children_from(bytes, pos, node.strings),
        None => Ok(Seq::empty()),
    }
}

/// The last of `nodes` whose name, without its unit address, is `name`.
pub open spec fn last_named(nodes: Seq<NodeView>, name: Seq<char>) -> Option<NodeView>
    decreases nodes.len(),
{
    if nodes.len() == 0 {
        None
    } else if short_name(nodes.last().name) == name {
        Some(nodes.last())
    } else {
        last_named(nodes.drop_last(), name)
    }
}

/// What an opened blob holds.
pub struct ReaderView {
    pub header: Header,
    pub root: NodeView,
    pub cpus: NodeView,
    pub aliases: Option<NodeView>,
}

/// What opening a blob gives.
pub open spec fn spec_open(bytes: Seq<u8>) -> Result<ReaderView, DtbInitError> {
    let header = header_of(bytes);
    if bytes.len() < HEADER_SIZE {
        Err(DtbInitError::ParsingError(ParsingError::MalformedTree))
    } else if header.version != DTB_VERSION && header.last_comp_version != DTB_VERSION {
        Err(DtbInitError::UnsupportedDtbVersion)
    } else if header.magic != MAGIC_VALUE {
        Err(DtbInitError::InvalidHeader { expected: MAGIC_VALUE, found: header.magic })
    } else {
        match spec_parse(bytes, header.off_dt_struct as int, header.off_dt_strings as int) {
            Err(e) => Err(DtbInitError::ParsingError(e)),
            Ok(root) => match children_of(bytes, root) {
                Err(e) => Err(DtbInitError::ParsingError(e)),
                Ok(nodes) => match last_named(nodes, "cpus"@) {
                    None => Err(DtbInitError::NoCpusNode),
                    Some(cpus) => Ok(
                        ReaderView { header, root, cpus, aliases: last_named(nodes, "aliases"@) },
                    ),
                },
            },
        }
    }
}

/// The text that the alias `alias` stands for: the string value of the
/// property of that name in the `aliases` node.
pub open spec fn spec_resolve_alias(
    bytes: Seq<u8>,
    aliases: Option<NodeView>,
    alias: Seq<char>,
) -> Result<Option<Seq<char>>, ParsingError> {
    match aliases {
        None => Ok(None),
        Some(node) => match node.props {
            None => Ok(None),
            Some(pos) => match find_property(bytes, pos, node.strings, alias) {
                Err(e) => Err(e),
                Ok(None) => Ok(None),
                Ok(Some(prop)) => Ok(string_value(prop.value)),
            },
        },
    }
}

/// The child of `node` that `get_child` finds under `name`.
pub open spec fn child_named(bytes: Seq<u8>, node: NodeView, name: Seq<char>) -> Result<
    Option<NodeView>,
    ParsingError,
> {
    match node.children {
        Some(pos) => find_child(bytes, pos, node.strings, name),
        None => Ok(None),
    }
}

/// The node that is reached from `node` by the components of `path` from
/// index `from` on. Components are what `/` separates; each is looked up among
/// the children of the node reached so far, and the first that is missing
/// ends the descent with nothing.
pub open spec fn descend(bytes: Seq<u8>, node: NodeView, path: Seq<char>, from: int) -> Result<
    Option<NodeView>,
    ParsingError,
>
    decreases path.len() - from,
{
    let stop = first_of(path, '/', from);
    if from < 0 || from > path.len() || stop < from {
        Ok(None)
    } else {
        match child_named(bytes, node, path.subrange(from, stop)) {
            Err(e) => Err(e),
            Ok(None) => Ok(None),
            Ok(Some(child)) => if stop >= path.len() {
                Ok(Some(child))
            } else {
                descend(bytes, child, path, stop + 1)
            },
        }
    }
}

/// The node that `path` names.
pub open spec fn spec_find_node(bytes: Seq<u8>, reader: ReaderView, path: Seq<char>) -> Result<
    Option<NodeView>,
    ParsingError,
> {
    if path == seq!['/'] {
        Ok(Some(reader.root))
    } else if path.len() > 0 && path[0] == '/' {
        descend(bytes, reader.root, path, 1)
    } else {
        match spec_resolve_alias(bytes, reader.aliases, path) {
            Err(e) => Err(e),
            Ok(None) => Ok(None),
            Ok(Some(target)) => if target.len() == 0 {
                Ok(None)
            } else {
                descend(bytes, reader.root, target, 1)
            },
        }
    }
}

/// A blob of a supported version that does not begin with the magic word is
/// refused with the word that was expected and the word that was found.
pub proof fn lemma_wrong_magic_is_refused(bytes: Seq<u8>)
    requires
        bytes.len() >= HEADER_SIZE,
        header_of(bytes).version == DTB_VERSION || header_of(bytes).last_comp_version
            == DTB_VERSION,
        header_of(bytes).magic != MAGIC_VALUE,
    ensures
        spec_open(bytes) == Err::<ReaderView, DtbInitError>(
            DtbInitError::InvalidHeader { expected: 0xd00dfeed, found: be_u32(bytes, 0) },
        ),
{
}

/// Every blob that is opened has the header that its first ten words spell
/// out, is of the supported version and begins with the magic word.
pub proof fn lemma_open_keeps_the_header(bytes: Seq<u8>)
    ensures
        match spec_open(bytes) {
            Ok(reader) => reader.header == header_of(bytes) && reader.header.magic == 0xd00dfeed
                && (reader.header.version == 17 || reader.header.last_comp_version == 17),
            Err(_) => true,
        },
{
}

/// `/` names the root.
pub proof fn lemma_slash_is_the_root(bytes: Seq<u8>, reader: ReaderView)
    ensures
        spec_find_node(bytes, reader, seq!['/']) == Ok::<Option<NodeView>, ParsingError>(
            Some(reader.root),
        ),
{
}

/// An alias names the node that the path it stands for names, where that
/// path begins with `/` and is not `/` alone.
pub proof fn lemma_alias_names_what_its_path_names(
    bytes: Seq<u8>,
    reader: ReaderView,
    alias: Seq<char>,
    path: Seq<char>,
)
    requires
        alias.len() == 0 || alias[0] != '/',
        spec_resolve_alias(bytes, reader.aliases, alias) == Ok::<
            Option<Seq<char>>,
            ParsingError,
        >(Some(path)),
        path.len() > 1,
        path[0] == '/',
    ensures
        spec_find_node(bytes, reader, alias) == spec_find_node(bytes, reader, path),
{
    assert(path != seq!['/']) by {
        assert(seq!['/'].len() == 1);
    }
    assert(alias != seq!['/']) by {
        if alias.len() > 0 {
            assert(seq!['/'][0] == '/');
        } else {
            assert(seq!['/'].len() == 1);
        }
    }
}

/// A blob that has been opened: its header is read and its root is decoded.
pub struct DtbReader<'a> {
    blob: &'a [u8],
    fdt_header: Header,
    root_node: DeviceTreeNode<'a>,
    cpus_node: DeviceTreeNode<'a>,
    aliases_node: Option<DeviceTreeNode<'a>>,
}

impl<'a> View for DtbReader<'a> {
    type V = ReaderView;

    closed spec fn view(&self) -> ReaderView {
        ReaderView {
            header: self.fdt_header,
            root: self.root_node@,
            cpus: self.cpus_node@,
            aliases: match self.aliases_node {
                Some(node) => Some(node@),
                None => None,
            },
        }
    }
}

/// The view of a node that may be missing.
pub open spec fn view_of(node: Option<DeviceTreeNode>) -> Option<NodeView> {
    match node {
        Some(n) => Some(n@),
        None => None,
    }
}

/// The children that a cursor has yet to yield.
pub open spec fn children_left(bytes: Seq<u8>, pos: Option<int>, strings: int) -> Result<
    Seq<NodeView>,
    ParsingError,
> {
    match pos {
        Some(p) => children_from(bytes, p, strings),
        None => Ok(Seq::empty()),
    }
}

/// `seen` followed by what is left, where what is left can be decoded.
pub open spec fn seen_then(seen: Seq<NodeView>, left: Result<Seq<NodeView>, ParsingError>) -> Result<
    Seq<NodeView>,
    ParsingError,
> {
    match left {
        Ok(rest) => Ok(seen + rest),
        Err(e) => Err(e),
    }
}

/// Walks the children of `root` once and remembers the last one called
/// `cpus` and the last one called `aliases`.
fn special_children<'a>(root: &DeviceTreeNode<'a>) -> (r: Result<
    (Option<DeviceTreeNode<'a>>, Option<DeviceTreeNode<'a>>),
    ParsingError,
>)
    ensures
        match children_of(root.blob(), root@) {
            Ok(nodes) => r matches Ok((cpus, aliases)) && view_of(cpus) == last_named(
                nodes,
                "cpus"@,
            ) && view_of(aliases) == last_named(nodes, "aliases"@) && (cpus matches Some(n)
                ==> n.blob() == root.blob()) && (aliases matches Some(n) ==> n.blob()
                == root.blob()),
            Err(e) => r == Err::<
                (Option<DeviceTreeNode<'a>>, Option<DeviceTreeNode<'a>>),
                ParsingError,
            >(e),
        },
{
    let mut cpus_node: Option<DeviceTreeNode<'a>> = None;
    let mut aliases_node: Option<DeviceTreeNode<'a>> = None;
    let mut cursor = root.children();
    let ghost mut seen: Seq<NodeView> = Seq::empty();
    let ghost bytes = root.blob();
    let ghost strings = root@.strings;
    proof {
        match children_left(bytes, cursor@.pos, strings) {
            Ok(rest) => {
                assert(seen + rest =~= rest);
            },
            Err(_) => {},
        }
    }
    loop
        invariant
            cursor.blob() == bytes,
            bytes == root.blob(),
            cursor@.strings == strings,
            children_of(bytes, root@) == seen_then(
                seen,
                children_left(bytes, cursor@.pos, strings),
            ),
            view_of(cpus_node) == last_named(seen, "cpus"@),
            view_of(aliases_node) == last_named(seen, "aliases"@),
            cpus_node matches Some(n) ==> n.blob() == bytes,
            aliases_node matches Some(n) ==> n.blob() == bytes,
        decreases
                match cursor@.pos {
                    Some(pos) => remaining(bytes, pos) + 1,
                    None => 0,
                },
    {
        proof {
            if let Some(pos) = cursor@.pos {
                lemma_child_at_advances(bytes, pos, strings);
            }
        }
        let ghost before = cursor@.pos;
        match cursor.next() {
            Err(e) => {
                return Err(e);
            },
            Ok(None) => {
                proof {
                    assert(seen + Seq::<NodeView>::empty() =~= seen);
                }
                return Ok((cpus_node, aliases_node));
            },
            Ok(Some(node)) => {
                proof {
                    match children_left(bytes, cursor@.pos, strings) {
                        Ok(rest) => {
                            assert(seen + (seq![node@] + rest) =~= seen.push(node@) + rest);
                        },
                        Err(_) => {},
                    }
                    assert(seen.push(node@).last() == node@);
                    assert(seen.push(node@).drop_last() =~= seen);
                    seen = seen.push(node@);
                    reveal_strlit("cpus");
                    reveal_strlit("aliases");
                    assert("cpus"@.len() != "aliases"@.len());
                }
                let name = node.name();
                if same_text(name, "cpus") {
                    cpus_node = Some(node);
                } else if same_text(name, "aliases") {
                    aliases_node = Some(node);
                }
            },
        }
    }
}

/// Reads the header of a blob of at least `HEADER_SIZE` bytes.
fn read_header(blob: &[u8]) -> (r: Header)
    requires
        blob@.len() >= HEADER_SIZE,
    ensures
        r == header_of(blob@),
{
    Header {
        magic: read_word(blob, 0),
        totalsize: read_word(blob, 4),
        off_dt_struct: read_word(blob, 8),
        off_dt_strings: read_word(blob, 12),
        off_mem_rsvmap: read_word(blob, 16),
        version: read_word(blob, 20),
        last_comp_version: read_word(blob, 24),
        boot_cpuid_phys: read_word(blob, 28),
        size_dt_strings: read_word(blob, 32),
        size_dt_struct: read_word(blob, 36),
    }
}

impl<'a> DtbReader<'a> {
    /// The blob that was opened.
    pub closed spec fn blob(&self) -> Seq<u8> {
        self.blob@
    }

    /// Every node that the reader holds lies in the reader's blob.
    #[verifier::type_invariant]
    spec fn wf(&self) -> bool {
        &&& self.root_node.blob() == self.blob@
        &&& self.cpus_node.blob() == self.blob@
        &&& match self.aliases_node {
            Some(node) => node.blob() == self.blob@,
            None => true,
        }
    }

    /// Opens a blob: reads its header, checks version and magic word, decodes
    /// the root, and looks among the root's children for `cpus` and `aliases`.
    pub fn new(blob: &'a [u8]) -> (r: Result<DtbReader<'a>, DtbInitError>)
        ensures
            match r {
                Ok(reader) => spec_open(blob@) == Ok::<ReaderView, DtbInitError>(reader@)
                    && reader.blob() == blob@ && reader@.header == header_of(blob@),
                Err(e) => spec_open(blob@) == Err::<ReaderView, DtbInitError>(e),
            },
    {
        if blob.len() < HEADER_SIZE {
            return Err(DtbInitError::ParsingError(ParsingError::MalformedTree));
        }
        let header = read_header(blob);
        if header.version != DTB_VERSION && header.last_comp_version != DTB_VERSION {
            return Err(DtbInitError::UnsupportedDtbVersion);
        }
        if header.magic != MAGIC_VALUE {
            return Err(DtbInitError::InvalidHeader { expected: MAGIC_VALUE, found: header.magic });
        }
        let strings: usize = header.off_dt_strings as usize;
        let root_node = match DeviceTreeNode::parse(blob, header.off_dt_struct as usize, strings) {
            Ok(node) => node,
            Err(e) => {
                return Err(DtbInitError::ParsingError(e));
            },
        };
        let (cpus_node, aliases_node) = match special_children(&root_node) {
            Ok(found) => found,
            Err(e) => {
                return Err(DtbInitError::ParsingError(e));
            },
        };
        match cpus_node {
            Some(cpus) => Ok(
                DtbReader { blob, fdt_header: header, root_node, cpus_node: cpus, aliases_node },
            ),
            None => Err(DtbInitError::NoCpusNode),
        }
    }

    /// The header, each field in host order.
    pub fn header(&self) -> (r: Header)
        ensures
            r == self@.header,
    {
        self.fdt_header
    }

    /// A cursor over the memory-reservation block.
    pub fn reserve_entry_iter(&self) -> (r: MemoryReserveEntryIter<'a>)
        ensures
            r.blob() == self.blob(),
            r.start() == self@.header.off_mem_rsvmap,
            r.pos() == self@.header.off_mem_rsvmap,
    {
        MemoryReserveEntryIter::new(self.blob, self.fdt_header.off_mem_rsvmap as usize)
    }

    /// The root of the tree.
    pub fn root_node(&self) -> (r: DeviceTreeNode<'a>)
        ensures
            r@ == self@.root,
            r.blob() == self.blob(),
    {
        proof {
            use_type_invariant(self);
        }
        self.root_node
    }

    /// The `cpus` node.
    pub fn cpus_node(&self) -> (r: DeviceTreeNode<'a>)
        ensures
            r@ == self@.cpus,
            r.blob() == self.blob(),
    {
        proof {
            use_type_invariant(self);
        }
        self.cpus_node
    }

    /// The text that an alias stands for: the string value of the property
    /// of that name in the `aliases` node, where there is one.
    pub fn resolve_alias(&self, alias: &str) -> (r: Result<Option<&'a str>, ParsingError>)
        ensures
            match spec_resolve_alias(self.blob(), self@.aliases, alias@) {
                Ok(Some(text)) => r matches Ok(Some(s)) && s@ == text,
                Ok(None) => r matches Ok(None),
                Err(e) => r == Err::<Option<&'a str>, ParsingError>(e),
            },
    {
        proof {
            use_type_invariant(self);
        }
        match self.aliases_node {
            None => Ok(None),
            Some(node) => match node.get_property(alias)? {
                None => Ok(None),
                Some(prop) => Ok(prop.value_str()),
            },
        }
    }

    /// The node that a path names. `/` names the root. A path that begins
    /// with `/` is followed from the root, component by component; any other
    /// is taken for an alias, and the path that it stands for is followed.
    pub fn find_node(&self, path: &str) -> (r: Result<Option<DeviceTreeNode<'a>>, ParsingError>)
        ensures
            match spec_find_node(self.blob(), self@, path@) {
                Ok(Some(node)) => r matches Ok(Some(n)) && n@ == node && n.blob()
                    == self.blob(),
                Ok(None) => r matches Ok(None),
                Err(e) => r == Err::<Option<DeviceTreeNode<'a>>, ParsingError>(e),
            },
    {
        proof {
            use_type_invariant(self);
            reveal_strlit("/");
            assert("/"@ =~= seq!['/']);
        }
        if same_text(path, "/") {
            return Ok(Some(self.root_node));
        }
        if path.unicode_len() > 0 && path.get_char(0) == '/' {
            follow(self.root_node, path, 1)
        } else {
            match self.resolve_alias(path)? {
                None => Ok(None),
                Some(target) => if target.unicode_len() == 0 {
                    Ok(None)
                } else {
                    follow(self.root_node, target, 1)
                },
            }
        }
    }
}

/// Follows the components of `path` from index `from` on, starting at `node`.
fn follow<'a>(node: DeviceTreeNode<'a>, path: &str, from: usize) -> (r: Result<
    Option<DeviceTreeNode<'a>>,
    ParsingError,
>)
    requires
        from <= path@.len(),
    ensures
        match descend(node.blob(), node@, path@, from as int) {
            Ok(Some(found)) => r matches Ok(Some(n)) && n@ == found && n.blob() == node.blob(),
            Ok(None) => r matches Ok(None),
            Err(e) => r == Err::<Option<DeviceTreeNode<'a>>, ParsingError>(e),
        },
{
    let n: usize = path.unicode_len();
    let mut current = node;
    let mut at: usize = from;
    loop
        invariant
            at <= n,
            n == path@.len(),
            current.blob() == node.blob(),
            descend(node.blob(), node@, path@, from as int) == descend(
                node.blob(),
                current@,
                path@,
                at as int,
            ),
        decreases n - at,
    {
        let stop: usize = index_of(path, '/', at);
        let part = path.substring_char(at, stop);
        match current.get_child(part)? {
            None => {
                return Ok(None);
            },
            Some(child) => {
                if stop >= n {
                    return Ok(Some(child));
                }
                current = child;
                at = stop + 1;
            },
        }
    }
}

} // verus!
