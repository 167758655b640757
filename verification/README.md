# bevy_clipmap

GPU geometry clipmaps for huge terrains: nested grids of doubling cell size follow a
target, a baked material covers the whole terrain, and a soft march over the heightmap
tells how much sun reaches a point. See https://hhoppe.com/gpugcm.pdf.

- `src/` is the library, verified with Verus. It decides everything that can be decided
  without the engine: which parts a grid is made of and where they go, how materials and
  layers are packed, when a bake starts, renders and is finished, which path fogs the
  scene, and how visible the sun is.
- `app/` is the plugin for the Bevy engine around it: components, GPU materials, systems.
- `tests/` runs the library in single precision.

The library is generic over its number type, the trait `Scalar`. It proves which
operations are applied to which operands, and promises nothing of the operations
themselves. Laws that need more of them say so in their `requires`: that an operation
gives one result for the same operands, that operations keep the order of the values, or
that they are exact.
