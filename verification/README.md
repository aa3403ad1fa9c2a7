# emf_mmf

An interactive 3D stator winding simulator, split in two.

- `src/` is the verified library, written in Verus: which phase and current
  direction each slot carries (`winding`), how the conductors of a slot are
  packed and joined into coils (`winding::packing`, `winding::laws`), how the
  configuration panel keeps the slot count valid (`ui`), the integer winding
  functions behind the MMF plots (`winding_scheme`), the phase palette and
  letters (`phase`), the triangle index lists of every mesh (`mesh`), the
  command-line build steps (`cli`, `font`) and the offered languages (`i18n`).
  Every public function carries a contract, and the properties the winding is
  meant to have stand as public proof functions.
- `app/` is the program around it: Bevy rendering, the egui panels, the
  floating-point geometry and animation, and file I/O. It calls the library
  for every integer decision.

The tests under `tests/` exercise the library on concrete machines.
