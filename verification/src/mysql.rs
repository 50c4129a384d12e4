//! MySQL server option files: the first reader of `my.cnf`, which looks
//! keys up and adds missing blocks, over the model of `mycnf`.
pub mod mycnf;
pub mod mysql_server_configuration;

pub use self::mycnf::MycnfBlock;

use vstd::prelude::*;
use self::mycnf::CnfView;

verus! {

/// An option file: the lines before the first block, then its blocks.
#[derive(Debug)]
pub struct MyCnfFile {
    pre_lines: Vec<String>,
    blocks: Vec<MycnfBlock>,
}

impl View for MyCnfFile {
    type V = CnfView;

    closed spec fn view(&self) -> CnfView {
        CnfView { pre_lines: self.pre_lines.deep_view(), blocks: self.blocks.deep_view() }
    }
}

impl MyCnfFile {
    /// Reads option-file lines (as `BufRead::lines` yields them).
    pub fn from_lines(lines: &Vec<String>) -> (r: MyCnfFile)
        ensures
            r@ == mycnf::parse_cnf(lines.deep_view()),
    {
        let (pre_lines, blocks) = mycnf::read_blocks(lines);
        MyCnfFile { pre_lines, blocks }
    }

    /// Looks `key_name` up in the first block named `block_name` (see
    /// `mycnf::lookup`).
    pub fn get_config(&self, block_name: &str, key_name: &str) -> (r: Option<(String, String)>)
        ensures
            mycnf::pair_view(r) == mycnf::lookup(self@.blocks, block_name@, key_name@),
    {
        mycnf::lookup_in(&self.blocks, block_name, key_name)
    }

    /// Appends a block `block_name` holding `key_name=value` when there is
    /// no block of that name; leaves the file as it is otherwise.
    pub fn set_block_key_value(&mut self, block_name: &str, key_name: &str, value: &str)
        ensures
            final(self)@ == (if mycnf::block_index(old(self)@.blocks, block_name@) < old(
                self,
            )@.blocks.len() {
                old(self)@
            } else {
                CnfView {
                    pre_lines: old(self)@.pre_lines,
                    blocks: old(self)@.blocks.push(
                        mycnf::BlockView {
                            name: block_name@,
                            lines: seq![mycnf::kv_line(key_name@, value@)],
                        },
                    ),
                }
            }),
    {
        let i = mycnf::block_index_of(&self.blocks, block_name);
        if i >= self.blocks.len() {
            let ghost old_bs = self.blocks.deep_view();
            let kv = mycnf::kv_line_of(key_name, value);
            let lines = vec![kv];
            assert(lines.deep_view() =~= seq![kv@]);
            let blk = MycnfBlock::new(String::from_str(block_name), lines);
            self.blocks.push(blk);
            assert(self.blocks.deep_view() =~= old_bs.push(blk.deep_view()));
        }
    }

    /// The lines before the first block.
    pub fn pre_lines(&self) -> (r: &Vec<String>)
        ensures
            r.deep_view() == self@.pre_lines,
    {
        &self.pre_lines
    }

    /// The blocks, in file order.
    pub fn blocks(&self) -> (r: &Vec<MycnfBlock>)
        ensures
            r.deep_view() == self@.blocks,
    {
        &self.blocks
    }
}

} // verus!
