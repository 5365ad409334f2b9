//! Where an asset's files live, below a base directory.
use vstd::prelude::*;
use vstd::string::{StrSliceExecFns, StringExecFns};
use crate::config::{decimal, numbered_name};

verus! {

/// `part` appended to the path `base` as one more component: a `part` that
/// starts with `/` replaces `base`, and one `/` stands between the two.
pub open spec fn joined(base: Seq<char>, part: Seq<char>) -> Seq<char> {
    if part.len() > 0 && part[0] == '/' {
        part
    } else if base.len() == 0 || base.last() == '/' {
        base + part
    } else {
        base + seq!['/'] + part
    }
}

/// Joins `part` to the path `base`.
pub fn join(base: &str, part: &str) -> (r: String)
    ensures
        r@ == joined(base@, part@),
{
    let plen = part.unicode_len();
    if plen > 0 && part.get_char(0) == '/' {
        return String::from_str(part);
    }
    let blen = base.unicode_len();
    let mut s = String::from_str(base);
    if blen > 0 && base.get_char(blen - 1) != '/' {
        proof {
            reveal_strlit("/");
        }
        s.append("/");
    }
    s.append(part);
    s
}

/// The three directories of an asset, as plain text.
pub struct QuotickPathBuilderView {
    pub base: Seq<char>,
    pub asset: Seq<char>,
    pub epoch: Seq<char>,
}

#[derive(Clone, Debug)]
pub struct QuotickPathBuilder {
    asset_path: String,
    base_path: String,
    epoch_path: String,
}

impl View for QuotickPathBuilder {
    type V = QuotickPathBuilderView;

    closed spec fn view(&self) -> QuotickPathBuilderView {
        QuotickPathBuilderView {
            base: self.base_path@,
            asset: self.asset_path@,
            epoch: self.epoch_path@,
        }
    }
}

impl QuotickPathBuilder {
    /// The directories of `asset` below `path`: `path/asset` and
    /// `path/asset/epoch`.
    pub fn new(asset: &str, path: &str) -> (r: QuotickPathBuilder)
        ensures
            r@.base == path@,
            r@.asset == joined(path@, asset@),
            r@.epoch == joined(joined(path@, asset@), "epoch"@),
    {
        let base_path = String::from_str(path);
        let asset_path = join(path, asset);
        let epoch_path = join(asset_path.as_str(), "epoch");
        QuotickPathBuilder { asset_path, base_path, epoch_path }
    }

    pub fn base_path(&self) -> (r: String)
        ensures
            r@ == self@.base,
    {
        String::from_str(self.base_path.as_str())
    }

    pub fn asset_path(&self) -> (r: String)
        ensures
            r@ == self@.asset,
    {
        String::from_str(self.asset_path.as_str())
    }

    pub fn epoch_path(&self) -> (r: String)
        ensures
            r@ == self@.epoch,
    {
        String::from_str(self.epoch_path.as_str())
    }

    /// The data log of shard `epoch`.
    pub fn frame_backing_file(&self, epoch: u64) -> (r: String)
        ensures
            r@ == joined(self@.epoch, decimal(epoch as nat) + ".qtf"@),
    {
        let name = numbered_name("", epoch, ".qtf");
        proof {
            reveal_strlit("");
            assert(""@ + decimal(epoch as nat) + ".qtf"@ =~= decimal(epoch as nat) + ".qtf"@);
        }
        join(self.epoch_path.as_str(), name.as_str())
    }

    /// The index snapshot of shard `epoch`.
    pub fn index_backing_file(&self, epoch: u64) -> (r: String)
        ensures
            r@ == joined(self@.epoch, decimal(epoch as nat) + ".qti"@),
    {
        let name = numbered_name("", epoch, ".qti");
        proof {
            reveal_strlit("");
            assert(""@ + decimal(epoch as nat) + ".qti"@ =~= decimal(epoch as nat) + ".qti"@);
        }
        join(self.epoch_path.as_str(), name.as_str())
    }

    /// The snapshot of the epoch index.
    pub fn epoch_index_backing_file(&self) -> (r: String)
        ensures
            r@ == joined(self@.asset, "epochs.qtf"@),
    {
        join(self.asset_path.as_str(), "epochs.qtf")
    }
}

} // verus!
