//! The argument packer: serializes the parameters of primitives into one
//! little-endian byte buffer and hands out where each landed.

use vstd::prelude::*;

use crate::map::tile::Tile;
use crate::shape::bvh::PointBvh;
use crate::shape::instruction::ContourTexture;
use crate::shape::types::{Centimeters, Position};
use crate::shape::words::{lemma_words_le_concat, push_signed_word, push_word, word_of, words_le};

verus! {

/// Where an argument lies in the buffer, both in 32-bit words.
#[derive(Clone, Copy, Debug, PartialEq, Eq, Structural)]
pub struct ShaderArgument {
    pub offset: u32,
    pub length: u32,
}

/// A value that can be packed into the argument buffer.
pub trait IntoShaderArgument {
    /// Whether the value's sizes fit the 32-bit fields that describe them.
    spec fn packable(&self) -> bool;

    /// The words the value appends to the buffer.
    spec fn argument_words(&self) -> Seq<u32>;

    /// The lengths, in words, of the handles returned for the value. They
    /// partition `argument_words`.
    spec fn handle_lengths(&self) -> Seq<u32>;

    /// Appends the value to `buffer` and returns one handle per part, each
    /// starting where the previous one ends and the first at the word offset
    /// of the old end of the buffer.
    fn into_shader_argument(&self, buffer: &mut Vec<u8>, tile: &Tile) -> (arguments: Vec<
        ShaderArgument,
    >)
        requires
            self.packable(),
            old(buffer)@.len() / 4 + self.argument_words().len() <= u32::MAX,
        ensures
            final(buffer)@ == old(buffer)@ + words_le(self.argument_words()),
            arguments@ == handles_from((old(buffer)@.len() / 4) as u32, self.handle_lengths()),
    ;
}

/// Consecutive handles of the given lengths, the first at `offset`.
pub open spec fn handles_from(offset: u32, lengths: Seq<u32>) -> Seq<ShaderArgument>
    decreases lengths.len(),
{
    if lengths.len() == 0 {
        Seq::empty()
    } else {
        seq![ShaderArgument { offset, length: lengths[0] }] + handles_from(
            (offset + lengths[0]) as u32,
            lengths.drop_first(),
        )
    }
}

/// The seven header words of a contour texture with zero level `zero`.
pub open spec fn contour_header(texture: ContourTexture, zero: Centimeters) -> Seq<u32> {
    seq![
        texture.width,
        texture.height,
        word_of(texture.min_lat),
        word_of(texture.max_lat),
        word_of(texture.min_lon),
        word_of(texture.max_lon),
        word_of(zero.0),
    ]
}

/// A contour texture together with the value that counts as zero.
#[derive(Debug)]
pub struct ContourArgument<'a> {
    pub texture: &'a ContourTexture,
    pub zero: Centimeters,
}

/// Appends `words` to `buffer`, little-endian.
pub fn push_words(buffer: &mut Vec<u8>, words: &Vec<u32>)
    ensures
        final(buffer)@ == old(buffer)@ + words_le(words@),
{
    let mut i: usize = 0;
    assert(words@.subrange(0, 0) =~= Seq::<u32>::empty());
    assert(buffer@ =~= old(buffer)@ + words_le(words@.subrange(0, 0)));
    while i < words.len()
        invariant
            i <= words.len(),
            buffer@ == old(buffer)@ + words_le(words@.subrange(0, i as int)),
        decreases words.len() - i,
    {
        push_word(buffer, words[i]);
        proof {
            let next = words@.subrange(0, i + 1);
            assert(next.drop_last() =~= words@.subrange(0, i as int));
            assert(buffer@ =~= old(buffer)@ + words_le(next));
        }
        i += 1;
    }
    assert(words@.subrange(0, words@.len() as int) =~= words@);
}

impl IntoShaderArgument for Position {
    open spec fn packable(&self) -> bool {
        true
    }

    open spec fn argument_words(&self) -> Seq<u32> {
        seq![word_of(self.x), word_of(self.y)]
    }

    open spec fn handle_lengths(&self) -> Seq<u32> {
        seq![2u32]
    }

    fn into_shader_argument(&self, buffer: &mut Vec<u8>, _tile: &Tile) -> (arguments: Vec<
        ShaderArgument,
    >) {
        let offset = (buffer.len() / 4) as u32;
        push_signed_word(buffer, self.x);
        push_signed_word(buffer, self.y);
        let mut arguments: Vec<ShaderArgument> = Vec::new();
        arguments.push(ShaderArgument { offset, length: 2 });
        proof {
            reveal_with_fuel(words_le, 3);
            let words = self.argument_words();
            assert(words.drop_last().drop_last() =~= Seq::<u32>::empty());
            assert(words.drop_last().last() == words[0]);
            assert(buffer@ =~= old(buffer)@ + words_le(words));
            reveal_with_fuel(handles_from, 2);
            assert(arguments@ =~= handles_from(offset, self.handle_lengths()));
        }
        arguments
    }
}

impl IntoShaderArgument for PointBvh {
    open spec fn packable(&self) -> bool {
        &&& self.nodes@.len() <= u32::MAX
        &&& self.points@.len() <= u32::MAX
        &&& 2 + 7 * self.nodes@.len() + 2 * self.points@.len() <= u32::MAX
    }

    open spec fn argument_words(&self) -> Seq<u32> {
        self.words()
    }

    open spec fn handle_lengths(&self) -> Seq<u32> {
        seq![(2 + 7 * self.nodes@.len() + 2 * self.points@.len()) as u32]
    }

    fn into_shader_argument(&self, buffer: &mut Vec<u8>, _tile: &Tile) -> (arguments: Vec<
        ShaderArgument,
    >) {
        let offset = (buffer.len() / 4) as u32;
        let length = self.serialized_size_u32() as u32;
        self.write_to_buffer(buffer);
        let mut arguments: Vec<ShaderArgument> = Vec::new();
        arguments.push(ShaderArgument { offset, length });
        proof {
            reveal_with_fuel(handles_from, 2);
            assert(arguments@ =~= handles_from(offset, self.handle_lengths()));
        }
        arguments
    }
}

impl IntoShaderArgument for Centimeters {
    open spec fn packable(&self) -> bool {
        true
    }

    open spec fn argument_words(&self) -> Seq<u32> {
        seq![word_of(self.0)]
    }

    open spec fn handle_lengths(&self) -> Seq<u32> {
        seq![1u32]
    }

    fn into_shader_argument(&self, buffer: &mut Vec<u8>, _tile: &Tile) -> (arguments: Vec<
        ShaderArgument,
    >) {
        let offset = (buffer.len() / 4) as u32;
        let value_cm = self.0;
        push_signed_word(buffer, value_cm);
        let mut arguments: Vec<ShaderArgument> = Vec::new();
        arguments.push(ShaderArgument { offset, length: 1 });
        proof {
            reveal_with_fuel(words_le, 2);
            let words = self.argument_words();
            assert(words.drop_last() =~= Seq::<u32>::empty());
            assert(buffer@ =~= old(buffer)@ + words_le(words));
            reveal_with_fuel(handles_from, 2);
            assert(arguments@ =~= handles_from(offset, self.handle_lengths()));
        }
        arguments
    }
}

impl<'a> IntoShaderArgument for ContourArgument<'a> {
    open spec fn packable(&self) -> bool {
        self.texture.texels@.len() + 7 <= u32::MAX
    }

    open spec fn argument_words(&self) -> Seq<u32> {
        contour_header(*self.texture, self.zero) + self.texture.texels@
    }

    open spec fn handle_lengths(&self) -> Seq<u32> {
        seq![7u32, self.texture.texels@.len() as u32]
    }

    /// Appends the header the shader expects, then the raw texels, and
    /// returns a handle for each.
    fn into_shader_argument(&self, buffer: &mut Vec<u8>, _tile: &Tile) -> (arguments: Vec<
        ShaderArgument,
    >) {
        let offset = (buffer.len() / 4) as u32;
        let length = self.texture.texels.len() as u32;
        let mut header: Vec<u32> = Vec::new();
        header.push(self.texture.width);
        header.push(self.texture.height);
        header.push(crate::shape::words::to_word(self.texture.min_lat));
        header.push(crate::shape::words::to_word(self.texture.max_lat));
        header.push(crate::shape::words::to_word(self.texture.min_lon));
        header.push(crate::shape::words::to_word(self.texture.max_lon));
        header.push(crate::shape::words::to_word(self.zero.0));
        assert(header@ =~= contour_header(*self.texture, self.zero));
        push_words(buffer, &header);
        push_words(buffer, &self.texture.texels);
        let mut arguments: Vec<ShaderArgument> = Vec::new();
        arguments.push(ShaderArgument { offset, length: 7 });
        arguments.push(ShaderArgument { offset: offset + 7, length });
        proof {
            lemma_words_le_concat(header@, self.texture.texels@);
            assert(buffer@ =~= old(buffer)@ + words_le(self.argument_words()));
            reveal_with_fuel(handles_from, 3);
            let lengths = self.handle_lengths();
            assert(lengths.drop_first() =~= seq![length]);
            assert(lengths.drop_first().drop_first() =~= Seq::<u32>::empty());
            assert(arguments@ =~= handles_from(offset, lengths));
        }
        arguments
    }
}

} // verus!
