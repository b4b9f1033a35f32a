//! Unit-tagged 2D vectors and rectangles.
use std::marker::PhantomData;
use vstd::prelude::*;

verus! {

/// Distances measured in map cells (one cell is `CELL_SIZE` pixels).
#[derive(Clone, Copy, Debug)]
pub struct MapUnits;

/// Integer cell coordinates.
#[derive(Clone, Copy, Debug)]
pub struct CellUnits;

/// Screen or texture pixels.
#[derive(Clone, Copy, Debug)]
pub struct PixelUnits;

/// Plain pixels (unit tag of the older coordinate helpers).
#[derive(Clone, Copy, Debug)]
pub struct Pixels;

/// The side length of one map cell in pixels.
pub const CELL_SIZE: u32 = 16;

/// A 2D vector whose components carry a unit tag `U`.
#[derive(Debug)]
pub struct Vec2<T, U> {
    pub x: T,
    pub y: T,
    pub _unit: PhantomData<U>,
}

impl<T: Copy, U> Clone for Vec2<T, U> {
    fn clone(&self) -> (v: Self)
        ensures
            v.x == self.x,
            v.y == self.y,
    {
        Vec2 { x: self.x, y: self.y, _unit: PhantomData }
    }
}

impl<T: Copy, U> Copy for Vec2<T, U> {
}

impl<T, U> Vec2<T, U> {
    pub fn new(x: T, y: T) -> (v: Self)
        ensures
            v.x == x,
            v.y == y,
    {
        Vec2 { x, y, _unit: PhantomData }
    }
}

impl<U> Vec2<i32, U> {
    /// Component-wise sum.
    pub fn add(self, rhs: Self) -> (v: Self)
        requires
            i32::MIN <= self.x + rhs.x <= i32::MAX,
            i32::MIN <= self.y + rhs.y <= i32::MAX,
        ensures
            v.x == self.x + rhs.x,
            v.y == self.y + rhs.y,
    {
        Vec2::new(self.x + rhs.x, self.y + rhs.y)
    }

    /// Component-wise difference.
    pub fn sub(self, rhs: Self) -> (v: Self)
        requires
            i32::MIN <= self.x - rhs.x <= i32::MAX,
            i32::MIN <= self.y - rhs.y <= i32::MAX,
        ensures
            v.x == self.x - rhs.x,
            v.y == self.y - rhs.y,
    {
        Vec2::new(self.x - rhs.x, self.y - rhs.y)
    }

    /// Both components multiplied by `k`.
    pub fn scale(self, k: i32) -> (v: Self)
        requires
            i32::MIN <= self.x * k <= i32::MAX,
            i32::MIN <= self.y * k <= i32::MAX,
        ensures
            v.x == self.x * k,
            v.y == self.y * k,
    {
        Vec2::new(self.x * k, self.y * k)
    }
}

/// An axis-aligned rectangle: top-left corner, width and height.
#[derive(Debug)]
pub struct Rect<T, U> {
    pub x: T,
    pub y: T,
    pub width: T,
    pub height: T,
    pub _unit: PhantomData<U>,
}

impl<T: Copy, U> Clone for Rect<T, U> {
    fn clone(&self) -> (r: Self)
        ensures
            r.x == self.x,
            r.y == self.y,
            r.width == self.width,
            r.height == self.height,
    {
        Rect { x: self.x, y: self.y, width: self.width, height: self.height, _unit: PhantomData }
    }
}

impl<T: Copy, U> Copy for Rect<T, U> {
}

impl<T, U> Rect<T, U> {
    pub fn new(x: T, y: T, width: T, height: T) -> (r: Self)
        ensures
            r.x == x,
            r.y == y,
            r.width == width,
            r.height == height,
    {
        Rect { x, y, width, height, _unit: PhantomData }
    }
}

impl<U> Rect<i32, U> {
    pub fn left(&self) -> (v: i32)
        ensures
            v == self.x,
    {
        self.x
    }

    pub fn right(&self) -> (v: i32)
        requires
            i32::MIN <= self.x + self.width <= i32::MAX,
        ensures
            v == self.x + self.width,
    {
        self.x + self.width
    }

    pub fn top(&self) -> (v: i32)
        ensures
            v == self.y,
    {
        self.y
    }

    pub fn bottom(&self) -> (v: i32)
        requires
            i32::MIN <= self.y + self.height <= i32::MAX,
        ensures
            v == self.y + self.height,
    {
        self.y + self.height
    }

    pub fn top_left(&self) -> (v: Vec2<i32, U>)
        ensures
            v.x == self.x,
            v.y == self.y,
    {
        Vec2::new(self.x, self.y)
    }
}

impl<U> Rect<u32, U> {
    pub fn left(&self) -> (v: u32)
        ensures
            v == self.x,
    {
        self.x
    }

    pub fn right(&self) -> (v: u32)
        requires
            self.x + self.width <= u32::MAX,
        ensures
            v == self.x + self.width,
    {
        self.x + self.width
    }

    pub fn top(&self) -> (v: u32)
        ensures
            v == self.y,
    {
        self.y
    }

    pub fn bottom(&self) -> (v: u32)
        requires
            self.y + self.height <= u32::MAX,
        ensures
            v == self.y + self.height,
    {
        self.y + self.height
    }

    pub fn top_left(&self) -> (v: Vec2<u32, U>)
        ensures
            v.x == self.x,
            v.y == self.y,
    {
        Vec2::new(self.x, self.y)
    }
}

} // verus!
