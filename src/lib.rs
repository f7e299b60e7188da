//! Ray/scene intersection bookkeeping for a Phong ray tracer: ray parameters
//! ordered by their binary64 encoding, sorted intersection lists with the
//! visible-hit rule, an arena that hands out object identities, a pixel grid
//! and the plain-text PPM encoding of a rendered image.
pub mod canvas;
pub mod intersections;
pub mod object_id;
pub mod ppm;
pub mod time;
