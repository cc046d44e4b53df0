# star_stuff

Image handling for astrophotography: FITS and PGM files, images held as
pixel buffers with a pitch, colour and Bayer images, the size reports of
ImageMagick, the command line of `gphoto2`, the walk over offsets along the
anti-diagonal that alignment searches with, and the decisions of the
autoguider loop.

`src/` is the library, written in Verus: each public function states in its
contract what it returns, and the laws that tie functions together (a FITS
header or image written and then read back gives what was written, a pixel
written and then read gives what was written, a crop shows the pixels of the
image it was cut from, the walk of `cross_range`) stand as proof functions.

`app/` holds what the library does not: reading and writing files, running
`convert`, `identify`, `dcraw` and `gphoto2`, threads, and floating point
arithmetic on images.

`tests/` runs the library on concrete values.
