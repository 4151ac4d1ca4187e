//! The list of cluster members, as it is configured.

use vstd::prelude::*;
use vstd::slice::slice_subrange;

use crate::error::{ConfigError, ConfigErrorView};
use crate::text::{
    chars_of, decimal, find_first, find_last, parse_unsigned, pieces, piece_views, quote, quoted,
    same_chars, split, string_of, trim, trimmed, unsigned_number,
};

verus! {

/// The most nodes that a cluster can have.
pub const MAX_CLUSTER_NODES: usize = 256;

/// The most characters that an advertised address can have.
pub const MAX_CLIENT_ADDRESS_LENGTH: usize = 255;

/// The most characters that a node's name can have.
pub const MAX_NODE_ID_LENGTH: usize = 64;

/// A node: its name, and the address under which clients reach it.
#[derive(Clone, Debug, PartialEq, Eq)]
pub struct ClusterNode {
    id: String,
    address: String,
}

/// A node with its parts as sequences of characters.
#[verifier::ext_equal]
pub struct NodeView {
    pub id: Seq<char>,
    pub address: Seq<char>,
}

impl View for ClusterNode {
    type V = NodeView;

    closed spec fn view(&self) -> NodeView {
        NodeView { id: self.id@, address: self.address@ }
    }
}

impl ClusterNode {
    /// The name of the node.
    pub fn id(&self) -> (id: &str)
        ensures
            id@ == self@.id,
    {
        self.id.as_str()
    }

    /// The address under which clients reach the node.
    pub fn address(&self) -> (address: &str)
        ensures
            address@ == self@.address,
    {
        self.address.as_str()
    }
}

/// Whether a character may stand in a node's name.
pub open spec fn id_char(c: char) -> bool {
    ('0' <= c <= '9') || ('A' <= c <= 'Z') || ('a' <= c <= 'z') || c == '-' || c == '_' || c == '.'
}

/// Whether a text can be a node's name.
pub open spec fn valid_id(id: Seq<char>) -> bool {
    0 < id.len() <= MAX_NODE_ID_LENGTH && (forall|i: int|
        0 <= i < id.len() ==> id_char(#[trigger] id[i]))
}

/// Whether a character may stand in an address.
pub open spec fn address_char(c: char) -> bool {
    (c as nat) < 128 && c != ' ' && c != '\t' && c != '\n' && c != '\x0c' && c != '\r'
}

/// Whether an address is short enough and of plain characters.
pub open spec fn plain_address(address: Seq<char>) -> bool {
    address.len() <= MAX_CLIENT_ADDRESS_LENGTH && (forall|i: int|
        0 <= i < address.len() ==> address_char(#[trigger] address[i]))
}

/// Whether an address is a host and a port, with a colon between them.
pub open spec fn host_and_port(address: Seq<char>) -> bool {
    match address.index_of_last(':') {
        None => false,
        Some(colon) => trimmed(address.take(colon)).len() > 0 && match unsigned_number(
            address.skip(colon + 1),
        ) {
            Some(port) => 0 < port <= 65535,
            None => false,
        },
    }
}

/// What is said of a name that is not one.
pub open spec fn bad_id(id: Seq<char>) -> ConfigErrorView {
    ConfigErrorView::InvalidCombination(
        "invalid cluster node id "@ + quoted(id)
            + "; use 1-64 ASCII letters, digits, '.', '-' or '_'"@,
    )
}

/// What is said of an address that is not one.
pub open spec fn bad_address(address: Seq<char>) -> ConfigErrorView {
    ConfigErrorView::InvalidCombination(
        "invalid cluster client address "@ + quoted(address) + "; expected host:port"@,
    )
}

/// The node that one piece of the list names.
pub open spec fn member_of(piece: Seq<char>) -> Result<NodeView, ConfigErrorView> {
    let member = trimmed(piece);
    match member.index_of_first('@') {
        None => Err(
            ConfigErrorView::InvalidCombination(
                "FORGEKV_CLUSTER_NODES entries must use node-id@host:port"@,
            ),
        ),
        Some(at) => {
            let id = member.take(at);
            let address = member.skip(at + 1);
            if !valid_id(id) {
                Err(bad_id(id))
            } else if !plain_address(address) {
                Err(
                    ConfigErrorView::InvalidCombination(
                        "cluster client address must be at most 255 ASCII bytes without whitespace"@,
                    ),
                )
            } else if !host_and_port(address) {
                Err(bad_address(address))
            } else {
                Ok(NodeView { id, address })
            }
        },
    }
}

/// Whether one of the nodes has this name.
pub open spec fn has_id(nodes: Seq<NodeView>, id: Seq<char>) -> bool {
    exists|i: int| 0 <= i < nodes.len() && (#[trigger] nodes[i]).id == id
}

/// Whether one of the nodes has this address.
pub open spec fn has_address(nodes: Seq<NodeView>, address: Seq<char>) -> bool {
    exists|i: int| 0 <= i < nodes.len() && (#[trigger] nodes[i]).address == address
}

/// Whether a node can be added to those before it.
pub open spec fn joined(nodes: Seq<NodeView>, piece: Seq<char>) -> Result<
    Seq<NodeView>,
    ConfigErrorView,
> {
    if nodes.len() >= MAX_CLUSTER_NODES {
        Err(
            ConfigErrorView::InvalidCombination(
                "FORGEKV_CLUSTER_NODES supports at most 256 nodes"@,
            ),
        )
    } else {
        match member_of(piece) {
            Err(error) => Err(error),
            Ok(node) => if has_id(nodes, node.id) {
                Err(
                    ConfigErrorView::InvalidCombination(
                        "duplicate cluster node id "@ + quoted(node.id),
                    ),
                )
            } else if has_address(nodes, node.address) {
                Err(
                    ConfigErrorView::InvalidCombination(
                        "duplicate cluster client address "@ + quoted(node.address),
                    ),
                )
            } else {
                Ok(nodes.push(node))
            },
        }
    }
}

/// The nodes that the pieces of the list name, in their order.
pub open spec fn members_of(parts: Seq<Seq<char>>) -> Result<Seq<NodeView>, ConfigErrorView>
    decreases parts.len(),
{
    if parts.len() == 0 {
        Ok(seq![])
    } else {
        match members_of(parts.drop_last()) {
            Err(error) => Err(error),
            Ok(nodes) => joined(nodes, parts.last()),
        }
    }
}

/// The views of nodes.
pub open spec fn node_views(nodes: Seq<ClusterNode>) -> Seq<NodeView> {
    nodes.map_values(|node: ClusterNode| node@)
}

/// Whether no two nodes have the same name.
pub open spec fn distinct_ids(nodes: Seq<NodeView>) -> bool {
    forall|i: int, j: int|
        #![trigger nodes[i], nodes[j]]
        0 <= i < j < nodes.len() ==> nodes[i].id != nodes[j].id
}

proof fn lemma_error_stays(parts: Seq<Seq<char>>, bound: int)
    requires
        0 <= bound <= parts.len(),
        members_of(parts.take(bound)) is Err,
    ensures
        members_of(parts) == members_of(parts.take(bound)),
    decreases parts.len() - bound,
{
    if bound < parts.len() {
        assert(parts.take(bound + 1).drop_last() =~= parts.take(bound));
        lemma_error_stays(parts, bound + 1);
    } else {
        assert(parts.take(bound) =~= parts);
    }
}

/// Nodes that were accepted have different names, and every name is one.
pub proof fn lemma_members(parts: Seq<Seq<char>>)
    requires
        members_of(parts) is Ok,
    ensures
        distinct_ids(members_of(parts)->Ok_0),
        members_of(parts)->Ok_0.len() <= MAX_CLUSTER_NODES,
        members_of(parts)->Ok_0.len() == parts.len(),
    decreases parts.len(),
{
    if parts.len() > 0 {
        lemma_members(parts.drop_last());
        let before = members_of(parts.drop_last())->Ok_0;
        let after = members_of(parts)->Ok_0;
        assert forall|i: int, j: int|
            #![trigger after[i], after[j]]
            0 <= i < j < after.len() implies after[i].id != after[j].id by {
            if j == before.len() {
                assert(before[i] == after[i]);
            } else {
                assert(before[i] == after[i] && before[j] == after[j]);
            }
        }
    }
}

/// Refuses a text that cannot be a node's name.
pub fn validate_node_id(id: &[char]) -> (valid: Result<(), ConfigError>)
    ensures
        match valid {
            Ok(_) => valid_id(id@),
            Err(error) => !valid_id(id@) && error@ == bad_id(id@),
        },
{
    let mut good: bool = id.len() > 0 && id.len() <= MAX_NODE_ID_LENGTH;
    let mut index: usize = 0;
    while good && index < id.len()
        invariant
            index <= id@.len(),
            good ==> 0 < id@.len() <= MAX_NODE_ID_LENGTH && (forall|i: int|
                0 <= i < index ==> id_char(#[trigger] id@[i])),
            !good ==> !valid_id(id@),
        decreases id@.len() - index,
    {
        let c: char = id[index];
        let fits: bool = ('0' <= c && c <= '9') || ('A' <= c && c <= 'Z') || ('a' <= c && c <= 'z')
            || c == '-' || c == '_' || c == '.';
        if !fits {
            assert(!id_char(id@[index as int]));
            good = false;
        }
        index += 1;
    }
    if good {
        return Ok(());
    }
    let mut message: String = "invalid cluster node id ".to_owned();
    message.push_str(quote(string_of(id).as_str()).as_str());
    message.push_str("; use 1-64 ASCII letters, digits, '.', '-' or '_'");
    Err(ConfigError::InvalidCombination(message))
}

fn is_address_char(c: char) -> (plain: bool)
    ensures
        plain == address_char(c),
{
    let code: u32 = c as u32;
    code < 128 && c != ' ' && c != '\t' && c != '\n' && c != '\x0c' && c != '\r'
}

fn is_plain_address(address: &[char]) -> (plain: bool)
    ensures
        plain == plain_address(address@),
{
    if address.len() > MAX_CLIENT_ADDRESS_LENGTH {
        return false;
    }
    for index in 0..address.len()
        invariant
            forall|i: int| 0 <= i < index ==> address_char(#[trigger] address@[i]),
    {
        if !is_address_char(address[index]) {
            assert(!address_char(address@[index as int]));
            return false;
        }
    }
    true
}

fn is_host_and_port(address: &[char]) -> (good: bool)
    ensures
        good == host_and_port(address@),
{
    match find_last(address, ':') {
        None => false,
        Some(colon) => {
            let length: usize = address.len();
            let host: &[char] = slice_subrange(address, 0, colon);
            let port: &[char] = slice_subrange(address, colon + 1, length);
            assert(host@ =~= address@.take(colon as int));
            assert(port@ =~= address@.skip(colon + 1));
            if trim(host).len() == 0 {
                return false;
            }
            match parse_unsigned(port, 65535) {
                Some(port) => port > 0,
                None => false,
            }
        },
    }
}

fn read_member(piece: &[char]) -> (node: Result<ClusterNode, ConfigError>)
    ensures
        match node {
            Ok(node) => member_of(piece@) == Ok::<NodeView, ConfigErrorView>(node@),
            Err(error) => member_of(piece@) == Err::<NodeView, ConfigErrorView>(error@),
        },
{
    let member: &[char] = trim(piece);
    let at: usize = match find_first(member, '@') {
        Some(at) => at,
        None => return Err(
            ConfigError::InvalidCombination(
                "FORGEKV_CLUSTER_NODES entries must use node-id@host:port".to_owned(),
            ),
        ),
    };
    let length: usize = member.len();
    let id: &[char] = slice_subrange(member, 0, at);
    let address: &[char] = slice_subrange(member, at + 1, length);
    assert(id@ =~= member@.take(at as int));
    assert(address@ =~= member@.skip(at + 1));
    match validate_node_id(id) {
        Ok(_) => {},
        Err(error) => return Err(error),
    }
    if !is_plain_address(address) {
        return Err(
            ConfigError::InvalidCombination(
                "cluster client address must be at most 255 ASCII bytes without whitespace".to_owned(),
            ),
        );
    }
    let address_text: String = string_of(address);
    if !is_host_and_port(address) {
        let mut message: String = "invalid cluster client address ".to_owned();
        message.push_str(quote(address_text.as_str()).as_str());
        message.push_str("; expected host:port");
        return Err(ConfigError::InvalidCombination(message));
    }
    Ok(ClusterNode { id: string_of(id), address: address_text })
}

/// Where a node with this name stands.
pub fn find_node(nodes: &Vec<ClusterNode>, id: &str) -> (place: Option<usize>)
    ensures
        match place {
            Some(index) => index < nodes@.len() && node_views(nodes@)[index as int].id == id@,
            None => !has_id(node_views(nodes@), id@),
        },
{
    let wanted: Vec<char> = chars_of(id);
    for index in 0..nodes.len()
        invariant
            wanted@ == id@,
            forall|i: int| 0 <= i < index ==> (#[trigger] node_views(nodes@)[i]).id != id@,
    {
        let name: Vec<char> = chars_of(nodes[index].id.as_str());
        if same_chars(name.as_slice(), wanted.as_slice()) {
            return Some(index);
        }
    }
    None
}

fn address_taken(nodes: &Vec<ClusterNode>, address: &str) -> (taken: bool)
    ensures
        taken == has_address(node_views(nodes@), address@),
{
    let wanted: Vec<char> = chars_of(address);
    for index in 0..nodes.len()
        invariant
            wanted@ == address@,
            forall|i: int| 0 <= i < index ==> (#[trigger] node_views(nodes@)[i]).address != address@,
    {
        let other: Vec<char> = chars_of(nodes[index].address.as_str());
        if same_chars(other.as_slice(), wanted.as_slice()) {
            assert(node_views(nodes@)[index as int].address == address@);
            return true;
        }
    }
    false
}

/// Reads the list of nodes.
pub fn read_membership(membership: &str) -> (nodes: Result<Vec<ClusterNode>, ConfigError>)
    ensures
        match nodes {
            Ok(nodes) => members_of(pieces(membership@, ',')) == Ok::<
                Seq<NodeView>,
                ConfigErrorView,
            >(node_views(nodes@)),
            Err(error) => members_of(pieces(membership@, ',')) == Err::<
                Seq<NodeView>,
                ConfigErrorView,
            >(error@),
        },
{
    let parts: Vec<Vec<char>> = split(chars_of(membership).as_slice(), ',');
    let ghost all = pieces(membership@, ',');
    let mut nodes: Vec<ClusterNode> = Vec::new();
    assert(all.take(0) =~= seq![]);
    assert(node_views(nodes@) =~= seq![]);
    for index in 0..parts.len()
        invariant
            all == pieces(membership@, ','),
            all == piece_views(parts@),
            members_of(all.take(index as int)) == Ok::<Seq<NodeView>, ConfigErrorView>(
                node_views(nodes@),
            ),
    {
        let ghost before = node_views(nodes@);
        proof {
            let next = all.take(index + 1);
            assert(next.drop_last() =~= all.take(index as int));
            assert(next.last() == parts@[index as int]@);
            if joined(before, parts@[index as int]@) is Err {
                lemma_error_stays(all, index + 1);
            }
        }
        if nodes.len() >= MAX_CLUSTER_NODES {
            return Err(
                ConfigError::InvalidCombination(
                    "FORGEKV_CLUSTER_NODES supports at most 256 nodes".to_owned(),
                ),
            );
        }
        let node: ClusterNode = match read_member(parts[index].as_slice()) {
            Ok(node) => node,
            Err(error) => return Err(error),
        };
        match find_node(&nodes, node.id.as_str()) {
            Some(place) => {
                let ghost taken = before[place as int];
                assert(taken.id == node@.id);
                let mut message: String = "duplicate cluster node id ".to_owned();
                message.push_str(quote(node.id.as_str()).as_str());
                return Err(ConfigError::InvalidCombination(message));
            },
            None => {},
        }
        if address_taken(&nodes, node.address.as_str()) {
            let mut message: String = "duplicate cluster client address ".to_owned();
            message.push_str(quote(node.address.as_str()).as_str());
            return Err(ConfigError::InvalidCombination(message));
        }
        nodes.push(node);
        assert(node_views(nodes@) =~= before.push(node@));
    }
    assert(all.take(parts@.len() as int) =~= all);
    Ok(nodes)
}

/// The parts of an accepted member: its name and its address with an at sign between them are the
/// entry without the white space around it. Names are short and of plain characters, addresses
/// have a host and a port, and no two members share either.
pub proof fn law_members_are_well_formed(parts: Seq<Seq<char>>, i: int)
    requires
        members_of(parts) is Ok,
        0 <= i < parts.len(),
    ensures
        ({
            let nodes = members_of(parts)->Ok_0;
            let node = nodes[i];
            &&& nodes.len() == parts.len() <= 256
            &&& trimmed(parts[i]) == node.id + seq!['@'] + node.address
            &&& !node.id.contains('@')
            &&& valid_id(node.id)
            &&& 1 <= node.id.len() <= 64
            &&& node.address.len() <= 255
            &&& node.address.contains(':')
            &&& forall|j: int|
                0 <= j < nodes.len() && j != i ==> (#[trigger] nodes[j]).id != node.id
                    && nodes[j].address != node.address
        }),
    decreases parts.len(),
{
    let before = parts.drop_last();
    let nodes = members_of(parts)->Ok_0;
    let earlier = members_of(before)->Ok_0;
    lemma_members(parts);
    lemma_members(before);
    assert forall|j: int| 0 <= j < earlier.len() implies (#[trigger] earlier[j]).id
        != nodes.last().id && earlier[j].address != nodes.last().address by {
        if earlier[j].id == nodes.last().id {
            assert(has_id(earlier, nodes.last().id));
        }
        if earlier[j].address == nodes.last().address {
            assert(has_address(earlier, nodes.last().address));
        }
    }
    if i < before.len() {
        law_members_are_well_formed(before, i);
        assert(nodes[i] == earlier[i]);
        assert forall|j: int| 0 <= j < nodes.len() && j != i implies (#[trigger] nodes[j]).id
            != nodes[i].id && nodes[j].address != nodes[i].address by {
            if j < earlier.len() {
                assert(nodes[j] == earlier[j]);
            } else {
                assert(earlier[i].id != nodes.last().id);
            }
        }
    } else {
        let member = trimmed(parts.last());
        member.index_of_first_ensures('@');
        let at = member.index_of_first('@')->0;
        let node = nodes.last();
        assert(member =~= node.id + seq!['@'] + node.address);
        assert forall|k: int| 0 <= k < node.id.len() implies node.id[k] != '@' by {
            assert(member[k] == node.id[k]);
        }
        node.address.index_of_last_ensures(':');
        assert forall|j: int| 0 <= j < nodes.len() && j != i implies (#[trigger] nodes[j]).id
            != nodes[i].id && nodes[j].address != nodes[i].address by {
            assert(nodes[j] == earlier[j]);
        }
    }
}

proof fn lemma_plain_host(host: Seq<char>)
    requires
        host.len() > 0,
        forall|i: int| #![trigger host[i]] 0 <= i < host.len() ==> '!' <= host[i] <= '~',
    ensures
        trimmed(host).len() > 0,
{
    crate::text::law_trimming_cuts_white_space(host);
    if trimmed(host).len() == 0 {
        let (start, end) = choose|start: int, end: int|
            #[trigger] crate::text::cut_to(host, trimmed(host), start, end);
        assert(crate::text::is_space(host[0]));
    }
}

proof fn lemma_plain_address(host: Seq<char>, digits: Seq<char>, port: nat, address: Seq<char>)
    requires
        host.len() > 0,
        forall|i: int| #![trigger host[i]] 0 <= i < host.len() ==> '!' <= host[i] <= '~',
        forall|i: int| #![trigger digits[i]] 0 <= i < digits.len() ==> '0' <= digits[i] <= '9',
        unsigned_number(digits) == Some(port),
        1 <= port <= 65535,
        address == host + seq![':'] + digits,
        address.len() <= 255,
    ensures
        plain_address(address),
        host_and_port(address),
{
    assert forall|i: int| 0 <= i < address.len() implies address_char(#[trigger] address[i]) by {
        if i < host.len() {
            assert(address[i] == host[i]);
        } else if i > host.len() {
            assert(address[i] == digits[i - host.len() - 1]);
        }
    }
    address.index_of_last_ensures(':');
    assert(address[host.len() as int] == ':');
    assert(address.contains(':'));
    let colon = address.index_of_last(':')->0;
    if colon > host.len() {
        assert(digits[colon - host.len() - 1] == ':');
    }
    assert(colon == host.len());
    assert(address.take(colon) =~= host);
    assert(address.skip(colon + 1) =~= digits);
    lemma_plain_host(host);
}

/// A name with an at sign and an address behind it, with white space around them or none, is the
/// member with that name and that address, where both are ones.
pub proof fn law_members_are_read_as_written(
    id: Seq<char>,
    host: Seq<char>,
    port: nat,
    address: Seq<char>,
    piece: Seq<char>,
)
    requires
        1 <= id.len() <= 64,
        forall|i: int|
            #![trigger id[i]]
            0 <= i < id.len() ==> ('a' <= id[i] <= 'z') || ('A' <= id[i] <= 'Z') || ('0' <= id[i]
                <= '9') || id[i] == '.' || id[i] == '-' || id[i] == '_',
        host.len() > 0,
        forall|i: int| #![trigger host[i]] 0 <= i < host.len() ==> '!' <= host[i] <= '~',
        1 <= port <= 65535,
        address == host + seq![':'] + decimal(port),
        address.len() <= 255,
        trimmed(piece) == id + seq!['@'] + address,
    ensures
        member_of(piece) == Ok::<NodeView, ConfigErrorView>(NodeView { id, address }),
{
    crate::text::law_decimal_round_trip(port);
    crate::text::lemma_decimal_digits(port);
    lemma_plain_address(host, decimal(port), port, address);
    let member = trimmed(piece);
    member.index_of_first_ensures('@');
    assert(member[id.len() as int] == '@');
    assert(member.contains('@'));
    let at = member.index_of_first('@')->0;
    if at < id.len() {
        assert(id[at] == '@');
    }
    assert(at == id.len());
    assert(member.take(at) =~= id);
    assert(member.skip(at + 1) =~= address);
    assert(valid_id(id));
}

/// A member that is accepted has a name of letters, digits, dots, hyphens and underscores, and an
/// address without blanks or characters beyond ASCII, whose part after the last colon is a port.
pub proof fn law_accepted_members_have_name_and_port(piece: Seq<char>, i: int, colon: int)
    requires
        member_of(piece) is Ok,
    ensures
        ({
            let node = member_of(piece)->Ok_0;
            let (id, address) = (node.id, node.address);
            let port = unsigned_number(address.skip(colon + 1));
            &&& 0 <= i < id.len() ==> ('a' <= id[i] <= 'z') || ('A' <= id[i] <= 'Z') || ('0'
                <= id[i] <= '9') || id[i] == '.' || id[i] == '-' || id[i] == '_'
            &&& 0 <= i < address.len() ==> (address[i] as nat) < 128 && address[i] != ' '
                && address[i] != '\t' && address[i] != '\n' && address[i] != '\r' && address[i]
                != '\x0c'
            &&& 0 <= colon < address.len() && address[colon] == ':' && !address.skip(
                colon + 1,
            ).contains(':') ==> port is Some && 1 <= port->0 <= 65535 && trimmed(
                address.take(colon),
            ).len() > 0
        }),
{
    let member = trimmed(piece);
    let at = member.index_of_first('@')->0;
    let id = member.take(at);
    let address = member.skip(at + 1);
    if 0 <= i < id.len() {
        assert(id_char(id[i]));
    }
    if 0 <= i < address.len() {
        assert(address_char(address[i]));
    }
    if 0 <= colon < address.len() && address[colon] == ':' && !address.skip(colon + 1).contains(':') {
        address.index_of_last_ensures(':');
        let last = address.index_of_last(':')->0;
        assert(address.contains(':'));
        if last > colon {
            assert(address.skip(colon + 1)[last - colon - 1] == ':');
        }
        assert(last == colon);
    }
}

/// A list of members is accepted member by member: the next one is, exactly where there are fewer
/// than two hundred and fifty-six before it, it is well formed, and none before it has its name or
/// its address. A list that was refused is not mended by what follows.
pub proof fn law_members_join_one_by_one(parts: Seq<Seq<char>>, piece: Seq<char>)
    ensures
        members_of(seq![]) == Ok::<Seq<NodeView>, ConfigErrorView>(seq![]),
        members_of(parts) is Err ==> members_of(parts.push(piece)) == members_of(parts),
        members_of(parts) is Ok ==> {
            let nodes = members_of(parts)->Ok_0;
            let node = member_of(piece)->Ok_0;
            let joins = members_of(parts.push(piece));
            &&& joins is Ok <==> nodes.len() < 256 && member_of(piece) is Ok && forall|i: int|
                0 <= i < nodes.len() ==> (#[trigger] nodes[i]).id != node.id && nodes[i].address
                    != node.address
            &&& joins is Ok ==> joins->Ok_0 == nodes.push(node)
        },
{
    assert(parts.push(piece).drop_last() =~= parts);
    if members_of(parts) is Ok && member_of(piece) is Ok {
        let nodes = members_of(parts)->Ok_0;
        let node = member_of(piece)->Ok_0;
        if has_id(nodes, node.id) {
            let i = choose|i: int| 0 <= i < nodes.len() && (#[trigger] nodes[i]).id == node.id;
            assert(nodes[i].id == node.id);
        }
        if has_address(nodes, node.address) {
            let i = choose|i: int|
                0 <= i < nodes.len() && (#[trigger] nodes[i]).address == node.address;
            assert(nodes[i].address == node.address);
        }
    }
}

} // verus!
