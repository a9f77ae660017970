//! The image buffer: a flat, row-major sequence of channel values together
//! with a shape descriptor. Pure data holder with shape-derived indexing
//! helpers; no algorithmic logic.

use vstd::prelude::*;

verus! {

/// The shape of an image buffer: rows, columns, and an optional interleaved
/// channel count. `channels == None` denotes a single-plane (grayscale)
/// buffer; `Some(c)` denotes `c` interleaved channels per pixel.
#[derive(Debug)]
pub struct Shape {
    height: usize,
    width: usize,
    channels: Option<usize>,
}

impl Shape {
    pub closed spec fn spec_height(&self) -> usize {
        self.height
    }

    pub closed spec fn spec_width(&self) -> usize {
        self.width
    }

    pub closed spec fn spec_channels(&self) -> Option<usize> {
        self.channels
    }

    /// Channel values per pixel: the channel count, or 1 for a single plane.
    pub open spec fn spec_chans(&self) -> usize {
        match self.spec_channels() {
            Some(c) => c,
            None => 1,
        }
    }

    /// Total number of channel values a buffer of this shape holds.
    pub open spec fn spec_size(&self) -> int {
        self.spec_height() * self.spec_width() * self.spec_chans()
    }

    /// A channel count, when present, is at least 1.
    pub open spec fn wf(&self) -> bool {
        self.spec_channels() matches Some(c) ==> c >= 1
    }

    pub fn new(height: usize, width: usize, channels: Option<usize>) -> (r: Self)
        requires
            channels matches Some(c) ==> c >= 1,
        ensures
            r.wf(),
            r.spec_height() == height,
            r.spec_width() == width,
            r.spec_channels() == channels,
    {
        Self { height, width, channels }
    }

    pub fn get_height(&self) -> (r: usize)
        ensures
            r == self.spec_height(),
    {
        self.height
    }

    pub fn get_width(&self) -> (r: usize)
        ensures
            r == self.spec_width(),
    {
        self.width
    }

    pub fn get_channels(&self) -> (r: Option<usize>)
        ensures
            r == self.spec_channels(),
    {
        self.channels
    }

    pub fn get_shape(&self) -> (r: (usize, usize, Option<usize>))
        ensures
            r == (self.spec_height(), self.spec_width(), self.spec_channels()),
    {
        (self.height, self.width, self.channels)
    }

    /// Number of dimensions of the buffer this shape describes: 3 with an
    /// explicit channel count, 2 for a single plane.
    pub fn get_ndims(&self) -> (r: usize)
        ensures
            r == if self.spec_channels() is Some { 3int } else { 2int },
    {
        if self.channels.is_some() {
            3
        } else {
            2
        }
    }
}

/// A shaped vector: the flat channel-value storage of one image, laid out
/// row-major with channels interleaved fastest.
#[derive(Debug)]
pub struct SVec<T> {
    shape: Shape,
    data: Vec<T>,
}

impl<T> SVec<T> {
    pub closed spec fn spec_shape(&self) -> Shape {
        self.shape
    }

    pub closed spec fn spec_data(&self) -> Seq<T> {
        self.data@
    }

    /// The storage holds exactly `height * width * channels` values.
    pub open spec fn wf(&self) -> bool {
        &&& self.spec_shape().wf()
        &&& self.spec_data().len() == self.spec_shape().spec_size()
    }

    pub fn new(shape: Shape, data: Vec<T>) -> (r: Self)
        requires
            shape.wf(),
            data@.len() == shape.spec_size(),
        ensures
            r.wf(),
            r.spec_shape() == shape,
            r.spec_data() == data@,
    {
        SVec { shape, data }
    }

    pub fn shape(&self) -> (r: (usize, usize, Option<usize>))
        ensures
            r == (
                self.spec_shape().spec_height(),
                self.spec_shape().spec_width(),
                self.spec_shape().spec_channels(),
            ),
    {
        self.shape.get_shape()
    }

    pub fn get_data(&self) -> (r: &[T])
        ensures
            r@ == self.spec_data(),
    {
        self.data.as_slice()
    }

    pub fn get_data_mut(&mut self) -> (r: &mut [T])
        ensures
            r@ == old(self).spec_data(),
            final(self).spec_data() == final(r)@,
            final(self).spec_shape() == old(self).spec_shape(),
    {
        self.data.as_mut_slice()
    }

    /// The value at one flat position.
    pub fn get_at(&self, i: usize) -> (r: &T)
        requires
            i < self.spec_data().len(),
        ensures
            *r == self.spec_data()[i as int],
    {
        &self.data[i]
    }

    /// Replaces the value at one flat position.
    pub fn set_at(&mut self, i: usize, v: T)
        requires
            i < old(self).spec_data().len(),
        ensures
            final(self).spec_data() == old(self).spec_data().update(i as int, v),
            final(self).spec_shape() == old(self).spec_shape(),
    {
        self.data.set(i, v);
    }
}

} // verus!
