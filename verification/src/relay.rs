//! How a protocol handler starts the byte relay once its handshake is done:
//! the labels both directions carry, the replay of bytes the client reader
//! had already buffered, and the order in which upstream sees them.

use vstd::prelude::*;
use crate::address::{Address, AddressView, addr_chars};
use crate::copy::{DuplexCopy, duplex_wf};

verus! {

/// The label of the client side: `local(to <addr>)`.
pub open spec fn local_label_chars(a: AddressView) -> Seq<char> {
    "local(to "@ + addr_chars(a) + ")"@
}

/// The label of the upstream side: `remote(<addr>)`.
pub open spec fn remote_label_chars(a: AddressView) -> Seq<char> {
    "remote("@ + addr_chars(a) + ")"@
}

/// Everything upstream receives: the replayed bytes, then the bytes the
/// client-to-upstream direction writes.
pub open spec fn upstream_delivery(replay: Seq<u8>, copied: Seq<u8>) -> Seq<u8> {
    replay + copied
}

/// Replay order: every byte pre-buffered at relay start reaches upstream
/// before every byte later copied from the client.
pub proof fn lemma_replay_order(replay: Seq<u8>, copied: Seq<u8>, i: int, j: int)
    requires
        0 <= i < replay.len(),
        0 <= j < copied.len(),
    ensures
        upstream_delivery(replay, copied)[i] == replay[i],
        upstream_delivery(replay, copied)[replay.len() + j] == copied[j],
        i < replay.len() + j,
{
}

/// A relay about to run: the bytes to hand upstream first, and the duplex
/// that then takes over.
pub struct RelayStart {
    pub replay: Vec<u8>,
    pub duplex: DuplexCopy,
}

/// Start the relay for `addr`: the buffered bytes are replayed to upstream
/// first, and the upstream side begins with a flush owed so the handshake
/// reply reaches the client promptly.
pub fn begin_relay(addr: &Address, buffered: Vec<u8>) -> (r: RelayStart)
    ensures
        r.replay@ == buffered@,
        duplex_wf(r.duplex),
        r.duplex.left.reader_label@ == local_label_chars(addr@),
        r.duplex.left.writer_label@ == remote_label_chars(addr@),
        r.duplex.right.reader_label@ == remote_label_chars(addr@),
        r.duplex.right.writer_label@ == local_label_chars(addr@),
        r.duplex.left.flush_on_pending == true,
        r.duplex.right.flush_on_pending == false,
        !r.duplex.left.writer_done && !r.duplex.right.writer_done,
        !r.duplex.left_done && !r.duplex.right_done,
        r.duplex.left.written@ == Seq::<u8>::empty(),
        r.duplex.right.written@ == Seq::<u8>::empty(),
        upstream_delivery(r.replay@, r.duplex.left.written@) == buffered@,
{
    let shown = addr.display_string();
    let mut local_label = String::new();
    local_label.append("local(to ");
    local_label.append(shown.as_str());
    local_label.append(")");
    let mut remote_label = String::new();
    remote_label.append("remote(");
    remote_label.append(shown.as_str());
    remote_label.append(")");
    proof {
        assert(local_label@ =~= local_label_chars(addr@));
        assert(remote_label@ =~= remote_label_chars(addr@));
    }
    let duplex = DuplexCopy::with_pending(local_label, false, remote_label, true);
    proof {
        assert(upstream_delivery(buffered@, duplex.left.written@) =~= buffered@);
    }
    RelayStart { replay: buffered, duplex }
}

} // verus!
